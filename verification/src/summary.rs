//! Descriptive statistics of a sample: mean, sample standard deviation and
//! nearest-rank percentiles.

use crate::arith::{well_defined, Operation};
use crate::bits::{is_finite, order_key, spec_is_finite, spec_order_key};
use crate::fault::Fault;
use crate::order::{ascending, lemma_sorted_copy, sort_ascending, sorted_copy, stable_sort_of};
use crate::return_stats::{mean, mean_std, sample_std};
use vstd::prelude::*;

verus! {

/// The statistics of one sample. Every field is a bit pattern.
#[derive(Clone, Copy, PartialEq, Eq, Debug, Structural)]
pub struct Summary {
    pub mean: u64,
    pub std: u64,
    pub median: u64,
    pub p5: u64,
    pub p25: u64,
    pub p75: u64,
    pub p95: u64,
}

/// The index of the `percent`-th percentile in an ascending sample of `n`
/// elements: `percent / 100 * (n - 1)` rounded to the nearest integer,
/// halves away from zero, and no greater than `n - 1`.
pub open spec fn spec_nearest_rank(percent: u8, n: nat) -> nat
    recommends
        n >= 1,
{
    let rounded = (percent * (n - 1) + 50) / 100;
    if rounded > n - 1 {
        (n - 1) as nat
    } else {
        rounded as nat
    }
}

/// The `percent`-th percentile of an ascending sample: the element at the
/// nearest rank, never a value between two elements.
pub open spec fn spec_percentile(sorted: Seq<u64>, percent: u8) -> u64
    recommends
        sorted.len() >= 1,
{
    sorted[spec_nearest_rank(percent, sorted.len()) as int]
}

/// Every element is a number other than an infinity.
pub open spec fn all_finite(sample: Seq<u64>) -> bool {
    forall|i: int| 0 <= i < sample.len() ==> is_finite(#[trigger] sample[i])
}

/// The statistics of `sample`: mean and standard deviation are taken over
/// the sample in ascending order, the percentiles at their nearest ranks.
pub open spec fn summary_of<A: Fn(Operation, u64, u64) -> u64>(unit: &A, sample: Seq<u64>) -> Summary {
    let sorted = sorted_copy(sample);
    Summary {
        mean: mean(unit, sorted),
        std: sample_std(unit, sorted),
        median: spec_percentile(sorted, 50),
        p5: spec_percentile(sorted, 5),
        p25: spec_percentile(sorted, 25),
        p75: spec_percentile(sorted, 75),
        p95: spec_percentile(sorted, 95),
    }
}

/// What `summary` answers for `sample`.
pub open spec fn summary_outcome<A: Fn(Operation, u64, u64) -> u64>(
    unit: &A,
    sample: Seq<u64>,
) -> Result<Summary, Fault> {
    if sample.len() < 2 {
        Err(Fault::InsufficientData)
    } else if !all_finite(sample) {
        Err(Fault::Domain)
    } else {
        Ok(summary_of(unit, sample))
    }
}

/// A rank lies inside the sample.
pub proof fn lemma_rank_in_range(percent: u8, n: nat)
    requires
        n >= 1,
    ensures
        spec_nearest_rank(percent, n) < n,
{
}

/// Up to one hundred percent the rounding alone keeps the rank inside the
/// sample; the cap matters only beyond.
pub proof fn lemma_rank_uncapped(percent: u8, n: nat)
    requires
        n >= 1,
        percent <= 100,
    ensures
        spec_nearest_rank(percent, n) == (percent * (n - 1) + 50) / 100,
{
    assert(percent * (n - 1) <= 100 * (n - 1)) by (nonlinear_arith)
        requires
            percent <= 100,
            n >= 1,
    ;
}

/// The rank is the integer nearest to `percent * (n - 1) / 100`: a hundred
/// times the rank is within fifty of `percent * (n - 1)`, the upper
/// distance being strict (a half rounds up).
pub proof fn lemma_rank_is_nearest(percent: u8, n: nat)
    requires
        n >= 1,
        percent <= 100,
    ensures
        percent * (n - 1) - 50 < 100 * spec_nearest_rank(percent, n) <= percent * (n - 1) + 50,
{
    lemma_rank_uncapped(percent, n);
}

/// A greater percentage never has a smaller rank.
pub proof fn lemma_rank_monotone(low: u8, high: u8, n: nat)
    requires
        n >= 1,
        low <= high,
    ensures
        spec_nearest_rank(low, n) <= spec_nearest_rank(high, n),
{
    assert(low * (n - 1) <= high * (n - 1)) by (nonlinear_arith)
        requires
            low <= high,
            n >= 1,
    ;
}

/// The percentiles of a sample stand in the order of their percentages.
pub proof fn lemma_percentiles_monotone(sorted: Seq<u64>, low: u8, high: u8)
    requires
        sorted.len() >= 1,
        ascending(sorted),
        low <= high,
    ensures
        order_key(spec_percentile(sorted, low)) <= order_key(spec_percentile(sorted, high)),
{
    lemma_rank_monotone(low, high, sorted.len());
    lemma_rank_in_range(high, sorted.len());
}

/// A percentile of a sample is one of its elements.
pub proof fn lemma_percentile_is_element(sample: Seq<u64>, percent: u8)
    requires
        sample.len() >= 1,
    ensures
        sample.contains(spec_percentile(sorted_copy(sample), percent)),
{
    broadcast use vstd::seq_lib::group_to_multiset_ensures;

    let sorted = sorted_copy(sample);
    lemma_sorted_copy(sample);
    lemma_rank_in_range(percent, sorted.len());
    let value = spec_percentile(sorted, percent);
    assert(sorted.contains(value));
    assert(sorted.to_multiset().count(value) > 0);
}

/// For every sample of at least two finite numbers, the percentiles of its
/// summary stand in ascending order: p5 <= p25 <= median <= p75 <= p95.
pub proof fn lemma_summary_percentiles_ordered<A: Fn(Operation, u64, u64) -> u64>(
    unit: &A,
    sample: Seq<u64>,
)
    requires
        sample.len() >= 2,
        all_finite(sample),
    ensures
        order_key(summary_of(unit, sample).p5) <= order_key(summary_of(unit, sample).p25),
        order_key(summary_of(unit, sample).p25) <= order_key(summary_of(unit, sample).median),
        order_key(summary_of(unit, sample).median) <= order_key(summary_of(unit, sample).p75),
        order_key(summary_of(unit, sample).p75) <= order_key(summary_of(unit, sample).p95),
{
    let sorted = sorted_copy(sample);
    lemma_sorted_copy(sample);
    lemma_percentiles_monotone(sorted, 5, 25);
    lemma_percentiles_monotone(sorted, 25, 50);
    lemma_percentiles_monotone(sorted, 50, 75);
    lemma_percentiles_monotone(sorted, 75, 95);
}

/// For every sample of at least two finite numbers, each percentile of its
/// summary is an element of the sample, bit for bit.
pub proof fn lemma_summary_percentiles_are_elements<A: Fn(Operation, u64, u64) -> u64>(
    unit: &A,
    sample: Seq<u64>,
)
    requires
        sample.len() >= 2,
        all_finite(sample),
    ensures
        sample.contains(summary_of(unit, sample).p5),
        sample.contains(summary_of(unit, sample).p25),
        sample.contains(summary_of(unit, sample).median),
        sample.contains(summary_of(unit, sample).p75),
        sample.contains(summary_of(unit, sample).p95),
{
    lemma_percentile_is_element(sample, 5);
    lemma_percentile_is_element(sample, 25);
    lemma_percentile_is_element(sample, 50);
    lemma_percentile_is_element(sample, 75);
    lemma_percentile_is_element(sample, 95);
}

/// Computes the nearest rank of a percentage in a sample of `n` elements;
/// an empty sample has no ranks.
pub fn nearest_rank(percent: u8, n: usize) -> (rank: Option<usize>)
    ensures
        n == 0 ==> rank is None,
        n >= 1 ==> rank == Some(spec_nearest_rank(percent, n as nat) as usize),
        rank matches Some(r) ==> r < n,
{
    if n == 0 {
        return None;
    }
    let last: u128 = (n - 1) as u128;
    assert(percent * last <= 255 * last) by (nonlinear_arith)
        requires
            percent <= 255,
            last >= 0,
    ;
    let rounded: u128 = (percent as u128 * last + 50) / 100;
    if rounded > last {
        Some(n - 1)
    } else {
        Some(rounded as usize)
    }
}

/// Picks the `percent`-th percentile out of an ascending sample; an empty
/// sample has none and is `InsufficientData`.
pub fn percentile(sorted: &Vec<u64>, percent: u8) -> (r: Result<u64, Fault>)
    ensures
        sorted.len() == 0 ==> r == Err::<u64, Fault>(Fault::InsufficientData),
        sorted.len() >= 1 ==> r == Ok::<u64, Fault>(spec_percentile(sorted@, percent)),
{
    match nearest_rank(percent, sorted.len()) {
        Some(rank) => Ok(sorted[rank]),
        None => Err(Fault::InsufficientData),
    }
}

/// Tells whether every element is a number other than an infinity.
pub fn check_finite(sample: &Vec<u64>) -> (ok: bool)
    ensures
        ok == all_finite(sample@),
{
    let mut i: usize = 0;
    while i < sample.len()
        invariant
            i <= sample.len(),
            forall|t: int| 0 <= t < i ==> is_finite(#[trigger] sample@[t]),
        decreases sample.len() - i,
    {
        if !is_finite(sample[i]) {
            return false;
        }
        i += 1;
    }
    true
}

/// Summarises a sample.
///
/// Fewer than two elements are `InsufficientData` (an empty sample has no
/// mean, a single element no standard deviation); otherwise an element
/// that is a NaN or an infinity is a `Domain` fault; otherwise the answer
/// is `summary_of`: the sample is copied and sorted ascending, mean and
/// standard deviation (divisor `n - 1`) are taken over the sorted copy,
/// and each percentile is the element at its nearest rank. The percentiles
/// stand in ascending order and each is an element of `values`.
pub fn summary<A: Fn(Operation, u64, u64) -> u64>(values: &Vec<u64>, unit: &A) -> (r: Result<
    Summary,
    Fault,
>)
    requires
        well_defined(unit),
    ensures
        r == summary_outcome(unit, values@),
        r matches Ok(s) ==> {
            &&& order_key(s.p5) <= order_key(s.p25) <= order_key(s.median)
            &&& order_key(s.median) <= order_key(s.p75) <= order_key(s.p95)
            &&& values@.contains(s.p5)
            &&& values@.contains(s.p25)
            &&& values@.contains(s.median)
            &&& values@.contains(s.p75)
            &&& values@.contains(s.p95)
        },
{
    if values.len() < 2 {
        return Err(Fault::InsufficientData);
    }
    if !check_finite(values) {
        return Err(Fault::Domain);
    }
    let sorted = sort_ascending(values);
    let (center, deviation) = match mean_std(&sorted, unit) {
        Ok(moments) => moments,
        Err(e) => {
            return Err(e);
        },
    };
    let median = match percentile(&sorted, 50) {
        Ok(value) => value,
        Err(e) => {
            return Err(e);
        },
    };
    let p5 = match percentile(&sorted, 5) {
        Ok(value) => value,
        Err(e) => {
            return Err(e);
        },
    };
    let p25 = match percentile(&sorted, 25) {
        Ok(value) => value,
        Err(e) => {
            return Err(e);
        },
    };
    let p75 = match percentile(&sorted, 75) {
        Ok(value) => value,
        Err(e) => {
            return Err(e);
        },
    };
    let p95 = match percentile(&sorted, 95) {
        Ok(value) => value,
        Err(e) => {
            return Err(e);
        },
    };
    proof {
        lemma_summary_percentiles_ordered(unit, values@);
        lemma_summary_percentiles_are_elements(unit, values@);
    }
    Ok(Summary { mean: center, std: deviation, median, p5, p25, p75, p95 })
}

} // verus!
