//! The path simulator: geometric Brownian motion driven by a seeded stream
//! of standard-normal draws.
//!
//! The stream is a capability as the arithmetic unit is: a seeder that
//! turns a seed into a stream state, and a sampler that turns a state into
//! the next state and one draw. The simulator uses one stream for all
//! paths and consumes it in path order, one draw per step.

use crate::arith::{
    apply, difference, exponential, product, square_root, sum, well_defined, Operation,
};
use crate::bits::{is_positive, spec_is_positive, HALF};
use crate::fault::{Fault, Parameter};
use vstd::prelude::*;

verus! {

/// The parameters of one simulation run. The four reals are bit patterns.
#[derive(Clone, Copy, PartialEq, Eq, Debug, Structural)]
pub struct SimulationParameters {
    /// The price every path starts from; a positive real.
    pub initial_price: u64,
    /// The drift per unit of time.
    pub drift: u64,
    /// The volatility per square root of a unit of time.
    pub volatility: u64,
    /// The length of one step; a positive real.
    pub time_step: u64,
    /// The number of steps of each path; at least one.
    pub horizon_steps: usize,
    /// The number of paths; zero gives an empty set of paths.
    pub path_count: usize,
    /// The seed of the stream of draws.
    pub seed: u64,
}

impl SimulationParameters {
    /// The configuration is one that a simulation accepts.
    pub open spec fn valid(&self) -> bool {
        first_invalid(*self) is None
    }

    /// Makes a configuration, or names the first parameter that is outside
    /// its domain.
    pub fn new(
        initial_price: u64,
        drift: u64,
        volatility: u64,
        time_step: u64,
        horizon_steps: usize,
        path_count: usize,
        seed: u64,
    ) -> (r: Result<SimulationParameters, Fault>)
        ensures
            ({
                let params = SimulationParameters {
                    initial_price,
                    drift,
                    volatility,
                    time_step,
                    horizon_steps,
                    path_count,
                    seed,
                };
                match first_invalid(params) {
                    Some(parameter) => r == Err::<SimulationParameters, Fault>(
                        Fault::Configuration(parameter),
                    ),
                    None => r == Ok::<SimulationParameters, Fault>(params) && params.valid(),
                }
            }),
    {
        let params = SimulationParameters {
            initial_price,
            drift,
            volatility,
            time_step,
            horizon_steps,
            path_count,
            seed,
        };
        match check_parameters(&params) {
            Ok(_) => Ok(params),
            Err(e) => Err(e),
        }
    }
}

/// The first parameter, in the order initial price, time step, horizon,
/// that is outside its domain; `None` where the configuration is valid.
pub open spec fn first_invalid(params: SimulationParameters) -> Option<Parameter> {
    if !is_positive(params.initial_price) {
        Some(Parameter::InitialPrice)
    } else if !is_positive(params.time_step) {
        Some(Parameter::TimeStep)
    } else if params.horizon_steps == 0 {
        Some(Parameter::HorizonSteps)
    } else {
        None
    }
}

/// The state that `seeder` makes of `seed`.
pub open spec fn seeded<S, G: Fn(u64) -> S>(seeder: &G, seed: u64) -> S {
    choose|s: S| call_ensures(*seeder, (seed,), s)
}

/// The next state and the draw that `sampler` makes of `state`.
pub open spec fn sampled<S, N: Fn(S) -> (S, u64)>(sampler: &N, state: S) -> (S, u64) {
    choose|next: (S, u64)| call_ensures(*sampler, (state,), next)
}

/// Seeder and sampler accept every request and answer each in one way only.
pub open spec fn repeatable<S, G: Fn(u64) -> S, N: Fn(S) -> (S, u64)>(
    seeder: &G,
    sampler: &N,
) -> bool {
    &&& forall|seed: u64| #[trigger] call_requires(*seeder, (seed,))
    &&& forall|seed: u64, s: S| #[trigger]
        call_ensures(*seeder, (seed,), s) ==> s == seeded(seeder, seed)
    &&& forall|state: S| #[trigger] call_requires(*sampler, (state,))
    &&& forall|state: S, next: (S, u64)| #[trigger]
        call_ensures(*sampler, (state,), next) ==> next == sampled(sampler, state)
}

/// The state of the stream after `k` draws.
pub open spec fn stream_state<S, G: Fn(u64) -> S, N: Fn(S) -> (S, u64)>(
    seeder: &G,
    sampler: &N,
    seed: u64,
    k: nat,
) -> S
    decreases k,
{
    if k == 0 {
        seeded(seeder, seed)
    } else {
        sampled(sampler, stream_state(seeder, sampler, seed, (k - 1) as nat)).0
    }
}

/// Draw number `k` of the stream, counting from zero.
pub open spec fn draw<S, G: Fn(u64) -> S, N: Fn(S) -> (S, u64)>(
    seeder: &G,
    sampler: &N,
    seed: u64,
    k: nat,
) -> u64 {
    sampled(sampler, stream_state(seeder, sampler, seed, k)).1
}

/// The deterministic part of the exponent of a step:
/// `(drift - 0.5 * volatility * volatility) * time_step`.
pub open spec fn drift_term<A: Fn(Operation, u64, u64) -> u64>(
    unit: &A,
    params: SimulationParameters,
) -> u64 {
    product(
        unit,
        difference(
            unit,
            params.drift,
            product(unit, HALF, product(unit, params.volatility, params.volatility)),
        ),
        params.time_step,
    )
}

/// The factor of the draw in the exponent of a step:
/// `volatility * sqrt(time_step)`.
pub open spec fn diffusion<A: Fn(Operation, u64, u64) -> u64>(
    unit: &A,
    params: SimulationParameters,
) -> u64 {
    product(unit, params.volatility, square_root(unit, params.time_step))
}

/// One step of the recurrence:
/// `price * exp(drift_term + diffusion * z)`.
pub open spec fn next_price<A: Fn(Operation, u64, u64) -> u64>(
    unit: &A,
    params: SimulationParameters,
    price: u64,
    z: u64,
) -> u64 {
    product(
        unit,
        price,
        exponential(
            unit,
            sum(unit, drift_term(unit, params), product(unit, diffusion(unit, params), z)),
        ),
    )
}

/// The price of path `path` after step `step`, both counted from zero.
/// Path `path` starts from the initial price and takes the draws
/// `path * horizon_steps` up to `path * horizon_steps + horizon_steps - 1`
/// of the stream, one per step, whatever the volatility.
pub open spec fn price_at<
    A: Fn(Operation, u64, u64) -> u64,
    S,
    G: Fn(u64) -> S,
    N: Fn(S) -> (S, u64),
>(unit: &A, seeder: &G, sampler: &N, params: SimulationParameters, path: nat, step: nat) -> u64
    decreases step,
{
    let before = if step == 0 {
        params.initial_price
    } else {
        price_at(unit, seeder, sampler, params, path, (step - 1) as nat)
    };
    next_price(
        unit,
        params,
        before,
        draw(seeder, sampler, params.seed, (path * params.horizon_steps + step) as nat),
    )
}

/// Path number `path`: its prices after each of its steps.
pub open spec fn path_of<
    A: Fn(Operation, u64, u64) -> u64,
    S,
    G: Fn(u64) -> S,
    N: Fn(S) -> (S, u64),
>(unit: &A, seeder: &G, sampler: &N, params: SimulationParameters, path: nat) -> Seq<u64> {
    Seq::new(
        params.horizon_steps as nat,
        |step: int| price_at(unit, seeder, sampler, params, path, step as nat),
    )
}

/// All paths of a run, in the order in which they draw from the stream.
pub open spec fn paths_of<
    A: Fn(Operation, u64, u64) -> u64,
    S,
    G: Fn(u64) -> S,
    N: Fn(S) -> (S, u64),
>(unit: &A, seeder: &G, sampler: &N, params: SimulationParameters) -> Seq<Seq<u64>> {
    Seq::new(
        params.path_count as nat,
        |path: int| path_of(unit, seeder, sampler, params, path as nat),
    )
}

/// What `simulate_gbm` answers for `params`.
pub open spec fn simulation_outcome<
    A: Fn(Operation, u64, u64) -> u64,
    S,
    G: Fn(u64) -> S,
    N: Fn(S) -> (S, u64),
>(unit: &A, seeder: &G, sampler: &N, params: SimulationParameters) -> Result<Seq<Seq<u64>>, Fault> {
    match first_invalid(params) {
        Some(parameter) => Err(Fault::Configuration(parameter)),
        None => Ok(paths_of(unit, seeder, sampler, params)),
    }
}

/// The set of paths as a sequence of sequences.
pub open spec fn paths_view(paths: Vec<Vec<u64>>) -> Seq<Seq<u64>> {
    Seq::new(paths@.len(), |i: int| paths@[i]@)
}

/// Checks a configuration before any simulation work.
pub fn check_parameters(params: &SimulationParameters) -> (r: Result<(), Fault>)
    ensures
        match first_invalid(*params) {
            Some(parameter) => r == Err::<(), Fault>(Fault::Configuration(parameter)),
            None => r == Ok::<(), Fault>(()),
        },
{
    if !is_positive(params.initial_price) {
        Err(Fault::Configuration(Parameter::InitialPrice))
    } else if !is_positive(params.time_step) {
        Err(Fault::Configuration(Parameter::TimeStep))
    } else if params.horizon_steps == 0 {
        Err(Fault::Configuration(Parameter::HorizonSteps))
    } else {
        Ok(())
    }
}

/// Simulates `path_count` price paths of `horizon_steps` steps each.
///
/// An initial price or a time step that is not a positive real, or a
/// horizon of zero steps, is a `Configuration` fault, reported before the
/// stream is seeded. Otherwise the answer is `paths_of`: the stream is
/// seeded once from `seed`; each path starts from the initial price and
/// each step draws one standard-normal `z` and multiplies the price by
/// `exp((drift - 0.5 * volatility^2) * time_step + volatility *
/// sqrt(time_step) * z)`. Paths draw one after the other from the one
/// stream, so no two steps share a draw. Zero paths give an empty answer.
pub fn simulate_gbm<
    A: Fn(Operation, u64, u64) -> u64,
    S,
    G: Fn(u64) -> S,
    N: Fn(S) -> (S, u64),
>(params: &SimulationParameters, unit: &A, seeder: &G, sampler: &N) -> (r: Result<
    Vec<Vec<u64>>,
    Fault,
>)
    requires
        well_defined(unit),
        repeatable(seeder, sampler),
    ensures
        match r {
            Ok(paths) => simulation_outcome(unit, seeder, sampler, *params) == Ok::<
                Seq<Seq<u64>>,
                Fault,
            >(paths_view(paths)),
            Err(e) => simulation_outcome(unit, seeder, sampler, *params) == Err::<
                Seq<Seq<u64>>,
                Fault,
            >(e),
        },
        r matches Ok(paths) ==> paths@.len() == params.path_count && forall|i: int|
            0 <= i < paths@.len() ==> (#[trigger] paths@[i])@.len() == params.horizon_steps,
{
    match check_parameters(params) {
        Err(e) => {
            return Err(e);
        },
        Ok(_) => {},
    }
    let half_variance: u64 = apply(
        unit,
        Operation::Multiply,
        HALF,
        apply(unit, Operation::Multiply, params.volatility, params.volatility),
    );
    let exponent_drift: u64 = apply(
        unit,
        Operation::Multiply,
        apply(unit, Operation::Subtract, params.drift, half_variance),
        params.time_step,
    );
    let exponent_scale: u64 = apply(
        unit,
        Operation::Multiply,
        params.volatility,
        apply(unit, Operation::SquareRoot, params.time_step, 0),
    );
    let horizon: usize = params.horizon_steps;
    let mut stream: S = seeder(params.seed);
    let mut paths: Vec<Vec<u64>> = Vec::new();
    let mut p: usize = 0;
    let ghost mut drawn: nat = 0;
    while p < params.path_count
        invariant
            well_defined(unit),
            repeatable(seeder, sampler),
            horizon == params.horizon_steps,
            exponent_drift == drift_term(unit, *params),
            exponent_scale == diffusion(unit, *params),
            p <= params.path_count,
            paths@.len() == p,
            drawn == p * horizon,
            stream == stream_state(seeder, sampler, params.seed, drawn),
            forall|i: int|
                0 <= i < p ==> (#[trigger] paths@[i])@ == path_of(
                    unit,
                    seeder,
                    sampler,
                    *params,
                    i as nat,
                ),
        decreases params.path_count - p,
    {
        let mut prices: Vec<u64> = Vec::new();
        let mut price: u64 = params.initial_price;
        let mut step: usize = 0;
        while step < horizon
            invariant
                well_defined(unit),
                repeatable(seeder, sampler),
                horizon == params.horizon_steps,
                exponent_drift == drift_term(unit, *params),
                exponent_scale == diffusion(unit, *params),
                step <= horizon,
                prices@.len() == step,
                drawn == p * horizon + step,
                stream == stream_state(seeder, sampler, params.seed, drawn),
                step == 0 ==> price == params.initial_price,
                step > 0 ==> price == price_at(
                    unit,
                    seeder,
                    sampler,
                    *params,
                    p as nat,
                    (step - 1) as nat,
                ),
                forall|t: int|
                    0 <= t < step ==> prices@[t] == price_at(
                        unit,
                        seeder,
                        sampler,
                        *params,
                        p as nat,
                        t as nat,
                    ),
            decreases horizon - step,
        {
            let (after, z) = sampler(stream);
            stream = after;
            let shock: u64 = apply(unit, Operation::Multiply, exponent_scale, z);
            let exponent: u64 = apply(unit, Operation::Add, exponent_drift, shock);
            let growth: u64 = apply(unit, Operation::Exponential, exponent, 0);
            price = apply(unit, Operation::Multiply, price, growth);
            prices.push(price);
            proof {
                assert(z == draw(seeder, sampler, params.seed, drawn));
                drawn = drawn + 1;
            }
            step += 1;
        }
        proof {
            assert(prices@ =~= path_of(unit, seeder, sampler, *params, p as nat));
            assert((p + 1) * horizon == p * horizon + horizon) by (nonlinear_arith);
        }
        paths.push(prices);
        p += 1;
    }
    proof {
        assert(paths_view(paths) =~= paths_of(unit, seeder, sampler, *params));
    }
    Ok(paths)
}

/// The last price of every path.
pub open spec fn terminal_prices_of(paths: Seq<Seq<u64>>) -> Seq<u64> {
    Seq::new(paths.len(), |i: int| paths[i].last())
}

/// Collects the terminal price of every path, in the order of the paths.
/// A path without a step has no terminal price: `InsufficientData`.
pub fn terminal_prices(paths: &Vec<Vec<u64>>) -> (r: Result<Vec<u64>, Fault>)
    ensures
        match r {
            Ok(last) => last@ == terminal_prices_of(paths_view(*paths)) && forall|i: int|
                0 <= i < paths@.len() ==> (#[trigger] paths@[i])@.len() > 0,
            Err(e) => e == Fault::InsufficientData && exists|i: int|
                0 <= i < paths@.len() && (#[trigger] paths@[i])@.len() == 0,
        },
{
    let mut last: Vec<u64> = Vec::new();
    let mut i: usize = 0;
    while i < paths.len()
        invariant
            i <= paths.len(),
            last@.len() == i,
            forall|t: int| 0 <= t < i ==> (#[trigger] paths@[t])@.len() > 0,
            forall|t: int| 0 <= t < i ==> last@[t] == paths@[t]@.last(),
        decreases paths.len() - i,
    {
        let path = &paths[i];
        if path.len() == 0 {
            return Err(Fault::InsufficientData);
        }
        last.push(path[path.len() - 1]);
        i += 1;
    }
    assert(last@ =~= terminal_prices_of(paths_view(*paths)));
    Ok(last)
}

/// A run is reproducible: two answers to the same parameters, from the
/// same unit and the same stream, are the same answer, fault for fault and
/// path for path, bit for bit.
pub proof fn lemma_same_seed_same_paths<
    A: Fn(Operation, u64, u64) -> u64,
    S,
    G: Fn(u64) -> S,
    N: Fn(S) -> (S, u64),
>(
    unit: &A,
    seeder: &G,
    sampler: &N,
    params: SimulationParameters,
    first: Result<Seq<Seq<u64>>, Fault>,
    second: Result<Seq<Seq<u64>>, Fault>,
)
    requires
        first == simulation_outcome(unit, seeder, sampler, params),
        second == simulation_outcome(unit, seeder, sampler, params),
    ensures
        first == second,
{
}

/// A valid configuration gives exactly `path_count` paths of exactly
/// `horizon_steps` prices each; an invalid one gives none.
pub proof fn lemma_shape<
    A: Fn(Operation, u64, u64) -> u64,
    S,
    G: Fn(u64) -> S,
    N: Fn(S) -> (S, u64),
>(unit: &A, seeder: &G, sampler: &N, params: SimulationParameters)
    ensures
        match simulation_outcome(unit, seeder, sampler, params) {
            Ok(paths) => {
                &&& first_invalid(params) is None
                &&& paths.len() == params.path_count
                &&& forall|i: int|
                    0 <= i < paths.len() ==> (#[trigger] paths[i]).len() == params.horizon_steps
                &&& params.horizon_steps >= 1
            },
            Err(e) => first_invalid(params) matches Some(parameter) && e == Fault::Configuration(
                parameter,
            ),
        },
{
}

/// Paths draw from disjoint stretches of the stream: two different steps
/// of a run never take the same draw number.
pub proof fn lemma_draws_do_not_overlap(
    horizon: nat,
    path_a: nat,
    step_a: nat,
    path_b: nat,
    step_b: nat,
)
    requires
        step_a < horizon,
        step_b < horizon,
        path_a != path_b || step_a != step_b,
    ensures
        path_a * horizon + step_a != path_b * horizon + step_b,
{
    if path_a < path_b {
        assert(path_a * horizon + horizon <= path_b * horizon) by (nonlinear_arith)
            requires
                path_a < path_b,
        ;
    } else if path_b < path_a {
        assert(path_b * horizon + horizon <= path_a * horizon) by (nonlinear_arith)
            requires
                path_b < path_a,
        ;
    }
}

/// Every price of a path is one step of the recurrence away from the
/// price before it, and the first from the initial price.
pub proof fn lemma_recurrence<
    A: Fn(Operation, u64, u64) -> u64,
    S,
    G: Fn(u64) -> S,
    N: Fn(S) -> (S, u64),
>(unit: &A, seeder: &G, sampler: &N, params: SimulationParameters, path: nat, step: nat)
    requires
        path < params.path_count,
        step < params.horizon_steps,
    ensures
        ({
            let prices = paths_of(unit, seeder, sampler, params)[path as int];
            let z = draw(
                seeder,
                sampler,
                params.seed,
                (path * params.horizon_steps + step) as nat,
            );
            prices[step as int] == next_price(
                unit,
                params,
                if step == 0 {
                    params.initial_price
                } else {
                    prices[step - 1]
                },
                z,
            )
        }),
{
}

} // verus!
