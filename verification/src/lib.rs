//! Monte Carlo simulation of asset prices under geometric Brownian motion,
//! with the return statistics that calibrate it and the order statistics
//! that summarise its outcomes.
//!
//! Double-precision numbers travel through the engine as their IEEE 754
//! bit patterns (`u64`). The engine never interprets a pattern beyond its
//! sign, class and rank; every rounding operation is delegated to an
//! arithmetic unit supplied by the caller, and every contract is stated
//! for whatever that unit computes.
//!
//! - `bits`: sign, class and rank of a bit pattern.
//! - `arith`: the arithmetic unit and the results it gives.
//! - `return_stats`: log-returns, their mean and standard deviation.
//! - `gbm`: the path simulator.
//! - `order`: the stable ascending sort.
//! - `summary`: mean, standard deviation and nearest-rank percentiles.
//! - `forecast`: history in, summary of the simulated future out.
//! - `chart`: the price range and the histogram that the charts show.
//! - `fault`: the reasons for a refusal.

pub mod arith;
pub mod bits;
pub mod chart;
pub mod fault;
pub mod forecast;
pub mod gbm;
pub mod order;
pub mod return_stats;
pub mod summary;
