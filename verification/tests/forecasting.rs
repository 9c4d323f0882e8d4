use core_sim::arith::Operation;
use core_sim::fault::{Fault, Parameter};
use core_sim::forecast::{forecast, Plan};
use core_sim::gbm::{simulate_gbm, terminal_prices, SimulationParameters};
use core_sim::return_stats::{log_returns, mean_std};
use core_sim::summary::summary;
use rand::rngs::StdRng;
use rand::SeedableRng;
use rand_distr::{Distribution, Normal};

fn doubles(op: Operation, a: u64, b: u64) -> u64 {
    let x = f64::from_bits(a);
    let y = f64::from_bits(b);
    let r = match op {
        Operation::Add => x + y,
        Operation::Subtract => x - y,
        Operation::Multiply => x * y,
        Operation::Divide => x / y,
        Operation::SquareRoot => x.sqrt(),
        Operation::Exponential => x.exp(),
        Operation::Logarithm => x.ln(),
        Operation::FromCount => a as f64,
        Operation::ToCount => return x as u64,
    };
    r.to_bits()
}

fn seeded(seed: u64) -> StdRng {
    StdRng::seed_from_u64(seed)
}

fn normal(mut rng: StdRng) -> (StdRng, u64) {
    let z: f64 = Normal::new(0.0, 1.0).unwrap().sample(&mut rng);
    (rng, z.to_bits())
}

fn history(prices: &[f64]) -> Vec<u64> {
    prices.iter().map(|p| p.to_bits()).collect()
}

fn plan(time_step: f64, horizon_steps: usize, path_count: usize, seed: u64) -> Plan {
    Plan { time_step: time_step.to_bits(), horizon_steps, path_count, seed }
}

fn fault_of(closes: &[f64], p: Plan) -> Option<Fault> {
    forecast(&history(closes), &p, &doubles, &seeded, &normal).err()
}

const STEADY: [f64; 6] = [100.0, 101.0, 100.5, 102.0, 101.5, 103.0];

#[test]
fn forecast_is_the_parts_in_sequence() {
    let closes = history(&STEADY);
    let f = forecast(&closes, &plan(1.0, 50, 1000, 42), &doubles, &seeded, &normal).unwrap();
    let changes = log_returns(&closes, &doubles).unwrap();
    let (mu, sigma) = mean_std(&changes, &doubles).unwrap();
    let params = SimulationParameters {
        initial_price: 103.0f64.to_bits(),
        drift: mu,
        volatility: sigma,
        time_step: 1.0f64.to_bits(),
        horizon_steps: 50,
        path_count: 1000,
        seed: 42,
    };
    assert_eq!(f.parameters, params);
    let paths = simulate_gbm(&params, &doubles, &seeded, &normal).unwrap();
    assert_eq!(f.paths, paths);
    let last = terminal_prices(&paths).unwrap();
    assert_eq!(f.terminal, last);
    assert_eq!(f.summary, summary(&last, &doubles).unwrap());
    assert_eq!(f.terminal.len(), 1000);
    assert_eq!(f.terminal[17], f.paths[17][49]);
}

#[test]
fn forecast_needs_three_prices() {
    let p = plan(1.0, 5, 10, 1);
    assert_eq!(fault_of(&[], p), Some(Fault::InsufficientData));
    assert_eq!(fault_of(&[100.0], p), Some(Fault::InsufficientData));
    assert_eq!(fault_of(&[100.0, 101.0], p), Some(Fault::InsufficientData));
    assert_eq!(fault_of(&[100.0, 101.0, 102.0], p), None);
}

#[test]
fn forecast_refuses_prices_that_are_not_positive() {
    let p = plan(1.0, 5, 10, 1);
    assert_eq!(fault_of(&[100.0, 0.0], p), Some(Fault::Domain));
    assert_eq!(fault_of(&[100.0, 101.0, -5.0, 102.0], p), Some(Fault::Domain));
    assert_eq!(fault_of(&[f64::NAN, 101.0, 102.0], p), Some(Fault::Domain));
}

#[test]
fn forecast_refuses_an_invalid_plan() {
    assert_eq!(
        fault_of(&STEADY, plan(0.0, 5, 10, 1)),
        Some(Fault::Configuration(Parameter::TimeStep))
    );
    assert_eq!(
        fault_of(&STEADY, plan(-1.0, 0, 10, 1)),
        Some(Fault::Configuration(Parameter::TimeStep))
    );
    assert_eq!(
        fault_of(&STEADY, plan(1.0, 0, 10, 1)),
        Some(Fault::Configuration(Parameter::HorizonSteps))
    );
}

#[test]
fn forecast_needs_two_paths() {
    assert_eq!(fault_of(&STEADY, plan(1.0, 5, 0, 1)), Some(Fault::InsufficientData));
    assert_eq!(fault_of(&STEADY, plan(1.0, 5, 1, 1)), Some(Fault::InsufficientData));
    assert_eq!(fault_of(&STEADY, plan(1.0, 5, 2, 1)), None);
}

#[test]
fn forecast_refuses_terminal_prices_that_are_not_finite() {
    let soaring = [1.0, 1e100, 1e200, 1e300];
    assert_eq!(fault_of(&soaring, plan(1e6, 3, 4, 1)), Some(Fault::Domain));
}

#[test]
fn prices_that_underflow_end_at_zero() {
    let wild = history(&[1.0, 1e300, 1.0, 1e300, 1.0]);
    let f = forecast(&wild, &plan(1e6, 3, 4, 1), &doubles, &seeded, &normal).unwrap();
    for price in &f.terminal {
        assert_eq!(f64::from_bits(*price), 0.0);
    }
    assert_eq!(f64::from_bits(f.summary.median), 0.0);
}
