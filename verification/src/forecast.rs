//! From a price history to the summary of its simulated future: the
//! three parts of the engine in the order in which they feed each other.

use crate::arith::{well_defined, Operation};
use crate::fault::Fault;
use crate::gbm::{
    first_invalid, paths_of, paths_view, repeatable, simulate_gbm, terminal_prices,
    terminal_prices_of, SimulationParameters,
};
use crate::return_stats::{
    all_positive, log_returns, log_returns_of, mean, mean_std, sample_std,
};
use crate::summary::{summary, summary_outcome, Summary};
use vstd::prelude::*;

verus! {

/// How far and how often to simulate.
#[derive(Clone, Copy, PartialEq, Eq, Debug, Structural)]
pub struct Plan {
    /// The length of one step, a bit pattern.
    pub time_step: u64,
    /// The number of steps of each path.
    pub horizon_steps: usize,
    /// The number of paths.
    pub path_count: usize,
    /// The seed of the stream of draws.
    pub seed: u64,
}

/// The outcome of a forecast.
#[derive(Clone, Debug)]
pub struct Forecast {
    /// The parameters that the simulation ran with: the last price of the
    /// history, the mean and the standard deviation of its log-returns,
    /// and the plan.
    pub parameters: SimulationParameters,
    /// The simulated paths.
    pub paths: Vec<Vec<u64>>,
    /// The last price of every path.
    pub terminal: Vec<u64>,
    /// The statistics of the terminal prices.
    pub summary: Summary,
}

/// The parameters that a history and a plan give: the simulation starts
/// from the last price, with the mean of the log-returns for its drift and
/// their sample standard deviation for its volatility.
pub open spec fn calibrated<A: Fn(Operation, u64, u64) -> u64>(
    unit: &A,
    closes: Seq<u64>,
    plan: Plan,
) -> SimulationParameters {
    let changes = log_returns_of(unit, closes);
    SimulationParameters {
        initial_price: closes.last(),
        drift: mean(unit, changes),
        volatility: sample_std(unit, changes),
        time_step: plan.time_step,
        horizon_steps: plan.horizon_steps,
        path_count: plan.path_count,
        seed: plan.seed,
    }
}

/// The fault that stops a forecast, the first in the order of the
/// computation; `None` where it runs to its end.
pub open spec fn forecast_fault<
    A: Fn(Operation, u64, u64) -> u64,
    S,
    G: Fn(u64) -> S,
    N: Fn(S) -> (S, u64),
>(unit: &A, seeder: &G, sampler: &N, closes: Seq<u64>, plan: Plan) -> Option<Fault> {
    if closes.len() < 2 {
        Some(Fault::InsufficientData)
    } else if !all_positive(closes) {
        Some(Fault::Domain)
    } else if closes.len() < 3 {
        Some(Fault::InsufficientData)
    } else {
        let params = calibrated(unit, closes, plan);
        match first_invalid(params) {
            Some(parameter) => Some(Fault::Configuration(parameter)),
            None => match summary_outcome(
                unit,
                terminal_prices_of(paths_of(unit, seeder, sampler, params)),
            ) {
                Err(e) => Some(e),
                Ok(_) => None,
            },
        }
    }
}

impl Forecast {
    /// This is the forecast of `closes` under `plan`.
    pub open spec fn describes<
        A: Fn(Operation, u64, u64) -> u64,
        S,
        G: Fn(u64) -> S,
        N: Fn(S) -> (S, u64),
    >(&self, unit: &A, seeder: &G, sampler: &N, closes: Seq<u64>, plan: Plan) -> bool {
        &&& self.parameters == calibrated(unit, closes, plan)
        &&& paths_view(self.paths) == paths_of(unit, seeder, sampler, self.parameters)
        &&& self.terminal@ == terminal_prices_of(paths_view(self.paths))
        &&& summary_outcome(unit, self.terminal@) == Ok::<Summary, Fault>(self.summary)
    }
}

/// Calibrates a simulation on a price history, runs it and summarises the
/// terminal prices.
///
/// The history must hold three prices at least (two log-returns), all
/// positive reals; the plan must have a positive real for its time step and a
/// horizon of one step at least; and there must be two paths at least, all
/// ending in finite prices. The first of these that fails, in the order of
/// the computation, is the fault reported.
pub fn forecast<A: Fn(Operation, u64, u64) -> u64, S, G: Fn(u64) -> S, N: Fn(S) -> (S, u64)>(
    closes: &Vec<u64>,
    plan: &Plan,
    unit: &A,
    seeder: &G,
    sampler: &N,
) -> (r: Result<Forecast, Fault>)
    requires
        well_defined(unit),
        repeatable(seeder, sampler),
    ensures
        match r {
            Ok(f) => forecast_fault(unit, seeder, sampler, closes@, *plan) is None && f.describes(
                unit,
                seeder,
                sampler,
                closes@,
                *plan,
            ),
            Err(e) => forecast_fault(unit, seeder, sampler, closes@, *plan) == Some(e),
        },
{
    let changes = match log_returns(closes, unit) {
        Ok(v) => v,
        Err(e) => {
            return Err(e);
        },
    };
    let (drift, volatility) = match mean_std(&changes, unit) {
        Ok(pair) => pair,
        Err(e) => {
            return Err(e);
        },
    };
    let parameters = SimulationParameters {
        initial_price: closes[closes.len() - 1],
        drift,
        volatility,
        time_step: plan.time_step,
        horizon_steps: plan.horizon_steps,
        path_count: plan.path_count,
        seed: plan.seed,
    };
    assert(parameters == calibrated(unit, closes@, *plan));
    let paths = match simulate_gbm(&parameters, unit, seeder, sampler) {
        Ok(paths) => paths,
        Err(e) => {
            return Err(e);
        },
    };
    let terminal = match terminal_prices(&paths) {
        Ok(last) => last,
        Err(e) => {
            proof {
                let i = choose|i: int| 0 <= i < paths@.len() && (#[trigger] paths@[i])@.len() == 0;
                assert(paths@[i]@.len() == parameters.horizon_steps);
            }
            return Err(e);
        },
    };
    let stats = match summary(&terminal, unit) {
        Ok(s) => s,
        Err(e) => {
            return Err(e);
        },
    };
    Ok(Forecast { parameters, paths, terminal, summary: stats })
}

} // verus!
