//! Log-returns of a price series, and their mean and sample standard
//! deviation.

use crate::arith::{
    apply, count, difference, from_count, logarithm, product, quotient, square_root, sum,
    well_defined, Operation,
};
use crate::bits::{is_positive, spec_is_positive, SIGN_BIT};
use crate::fault::Fault;
use vstd::prelude::*;

verus! {

/// The log-return from price `from` to price `to`: `ln(to / from)`.
pub open spec fn log_return<A: Fn(Operation, u64, u64) -> u64>(unit: &A, from: u64, to: u64) -> u64 {
    logarithm(unit, quotient(unit, to, from))
}

/// The log-returns of `prices`, one for each pair of neighbours.
pub open spec fn log_returns_of<A: Fn(Operation, u64, u64) -> u64>(
    unit: &A,
    prices: Seq<u64>,
) -> Seq<u64> {
    Seq::new(
        if prices.len() > 0 {
            (prices.len() - 1) as nat
        } else {
            0
        },
        |i: int| log_return(unit, prices[i], prices[i + 1]),
    )
}

/// Every price is a positive real.
pub open spec fn all_positive(prices: Seq<u64>) -> bool {
    forall|i: int| 0 <= i < prices.len() ==> is_positive(#[trigger] prices[i])
}

/// The elements of `xs` added up from the left, starting from negative
/// zero, the one number that addition leaves every other unchanged by:
/// `((-0 + x0) + x1) + ...`.
pub open spec fn total<A: Fn(Operation, u64, u64) -> u64>(unit: &A, xs: Seq<u64>) -> u64
    decreases xs.len(),
{
    if xs.len() == 0 {
        SIGN_BIT
    } else {
        sum(unit, total(unit, xs.drop_last()), xs.last())
    }
}

/// The arithmetic mean: the total divided by the number of elements.
pub open spec fn mean<A: Fn(Operation, u64, u64) -> u64>(unit: &A, xs: Seq<u64>) -> u64 {
    quotient(unit, total(unit, xs), from_count(unit, xs.len()))
}

/// The square of the distance of `x` from `center`.
pub open spec fn squared_deviation<A: Fn(Operation, u64, u64) -> u64>(
    unit: &A,
    x: u64,
    center: u64,
) -> u64 {
    product(unit, difference(unit, x, center), difference(unit, x, center))
}

/// The squared deviations of `xs` from `center`, in the order of `xs`.
pub open spec fn squared_deviations<A: Fn(Operation, u64, u64) -> u64>(
    unit: &A,
    xs: Seq<u64>,
    center: u64,
) -> Seq<u64> {
    Seq::new(xs.len(), |i: int| squared_deviation(unit, xs[i], center))
}

/// The unbiased sample variance: the squared deviations from the mean,
/// added up and divided by one less than the number of elements.
pub open spec fn sample_variance<A: Fn(Operation, u64, u64) -> u64>(unit: &A, xs: Seq<u64>) -> u64 {
    quotient(
        unit,
        total(unit, squared_deviations(unit, xs, mean(unit, xs))),
        from_count(unit, (xs.len() - 1) as nat),
    )
}

/// The sample standard deviation: the square root of the sample variance.
pub open spec fn sample_std<A: Fn(Operation, u64, u64) -> u64>(unit: &A, xs: Seq<u64>) -> u64 {
    square_root(unit, sample_variance(unit, xs))
}

/// What `log_returns` answers for `prices`.
pub open spec fn log_returns_outcome<A: Fn(Operation, u64, u64) -> u64>(
    unit: &A,
    prices: Seq<u64>,
) -> Result<Seq<u64>, Fault> {
    if prices.len() < 2 {
        Err(Fault::InsufficientData)
    } else if !all_positive(prices) {
        Err(Fault::Domain)
    } else {
        Ok(log_returns_of(unit, prices))
    }
}

/// What `mean_std` answers for `series`.
pub open spec fn mean_std_outcome<A: Fn(Operation, u64, u64) -> u64>(
    unit: &A,
    series: Seq<u64>,
) -> Result<(u64, u64), Fault> {
    if series.len() < 2 {
        Err(Fault::InsufficientData)
    } else {
        Ok((mean(unit, series), sample_std(unit, series)))
    }
}

/// Tells whether every price is a positive real.
pub fn check_positive(prices: &Vec<u64>) -> (ok: bool)
    ensures
        ok == all_positive(prices@),
{
    let mut i: usize = 0;
    while i < prices.len()
        invariant
            i <= prices.len(),
            forall|t: int| 0 <= t < i ==> is_positive(#[trigger] prices@[t]),
        decreases prices.len() - i,
    {
        if !is_positive(prices[i]) {
            return false;
        }
        i += 1;
    }
    true
}

/// Computes the log-return of every pair of neighbouring prices.
///
/// Fewer than two prices are `InsufficientData`; otherwise a price that is
/// not a positive real is a `Domain` fault; otherwise the answer has
/// one element less than `prices`, element `i` being
/// `ln(prices[i + 1] / prices[i])` as the unit rounds it.
pub fn log_returns<A: Fn(Operation, u64, u64) -> u64>(prices: &Vec<u64>, unit: &A) -> (r: Result<
    Vec<u64>,
    Fault,
>)
    requires
        well_defined(unit),
    ensures
        match r {
            Ok(v) => log_returns_outcome(unit, prices@) == Ok::<Seq<u64>, Fault>(v@),
            Err(e) => log_returns_outcome(unit, prices@) == Err::<Seq<u64>, Fault>(e),
        },
{
    if prices.len() < 2 {
        return Err(Fault::InsufficientData);
    }
    if !check_positive(prices) {
        return Err(Fault::Domain);
    }
    let mut out: Vec<u64> = Vec::new();
    let mut i: usize = 0;
    while i + 1 < prices.len()
        invariant
            well_defined(unit),
            prices.len() >= 2,
            i + 1 <= prices.len(),
            out@.len() == i,
            forall|t: int| 0 <= t < i ==> out@[t] == log_return(unit, prices@[t], prices@[t + 1]),
        decreases prices.len() - i,
    {
        let ratio: u64 = apply(unit, Operation::Divide, prices[i + 1], prices[i]);
        let value: u64 = apply(unit, Operation::Logarithm, ratio, 0);
        out.push(value);
        i += 1;
    }
    assert(out@ =~= log_returns_of(unit, prices@));
    Ok(out)
}

/// Adds up a list from the left; the total of no elements is negative
/// zero.
pub fn add_up<A: Fn(Operation, u64, u64) -> u64>(xs: &Vec<u64>, unit: &A) -> (r: u64)
    requires
        well_defined(unit),
    ensures
        r == total(unit, xs@),
{
    let mut acc: u64 = SIGN_BIT;
    let mut i: usize = 0;
    while i < xs.len()
        invariant
            well_defined(unit),
            i <= xs.len(),
            acc == total(unit, xs@.take(i as int)),
        decreases xs.len() - i,
    {
        assert(xs@.take(i + 1).drop_last() =~= xs@.take(i as int));
        acc = apply(unit, Operation::Add, acc, xs[i]);
        i += 1;
    }
    assert(xs@.take(xs.len() as int) =~= xs@);
    acc
}

/// Computes the mean and the sample standard deviation (divisor `n - 1`).
///
/// Fewer than two elements are `InsufficientData`: the divisor would be
/// zero. Otherwise the answer is the pair of `mean` and `sample_std`.
pub fn mean_std<A: Fn(Operation, u64, u64) -> u64>(series: &Vec<u64>, unit: &A) -> (r: Result<
    (u64, u64),
    Fault,
>)
    requires
        well_defined(unit),
    ensures
        r == mean_std_outcome(unit, series@),
{
    let n: usize = series.len();
    if n < 2 {
        return Err(Fault::InsufficientData);
    }
    let center: u64 = apply(unit, Operation::Divide, add_up(series, unit), count(unit, n));
    let mut squares: Vec<u64> = Vec::new();
    let mut i: usize = 0;
    while i < n
        invariant
            well_defined(unit),
            n == series.len(),
            i <= n,
            squares@.len() == i,
            forall|t: int|
                0 <= t < i ==> squares@[t] == squared_deviation(unit, series@[t], center),
        decreases n - i,
    {
        let d: u64 = apply(unit, Operation::Subtract, series[i], center);
        squares.push(apply(unit, Operation::Multiply, d, d));
        i += 1;
    }
    assert(squares@ =~= squared_deviations(unit, series@, center));
    let variance: u64 = apply(unit, Operation::Divide, add_up(&squares, unit), count(unit, n - 1));
    let deviation: u64 = apply(unit, Operation::SquareRoot, variance, 0);
    Ok((center, deviation))
}

} // verus!
