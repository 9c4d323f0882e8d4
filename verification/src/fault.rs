//! The ways in which a request to the engine can be refused.

use vstd::prelude::*;

verus! {

/// A simulation parameter that can make a configuration invalid.
#[derive(Clone, Copy, PartialEq, Eq, Debug, Structural)]
pub enum Parameter {
    InitialPrice,
    TimeStep,
    HorizonSteps,
}

/// Why the engine refused to compute.
#[derive(Clone, Copy, PartialEq, Eq, Debug, Structural)]
pub enum Fault {
    /// A simulation parameter is outside its domain.
    Configuration(Parameter),
    /// Too few observations for the statistic asked for.
    InsufficientData,
    /// An observation is outside the domain of the computation: a price
    /// that is not a positive real, or a sample that is not finite.
    Domain,
}

} // verus!
