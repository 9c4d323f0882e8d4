//! The figures behind the two charts of a run: the range that the prices
//! span, and the histogram of the terminal prices.

use crate::arith::{
    apply, count, difference, from_count, product, quotient, sum, to_count, well_defined,
    Operation,
};
use crate::bits::{is_nan, order_key, spec_is_nan, spec_order_key};
use crate::gbm::paths_view;
use vstd::prelude::*;

verus! {

/// The number of bins of a histogram.
pub const HISTOGRAM_BINS: usize = 30;

/// The pattern of the greatest finite number.
pub const GREATEST_FINITE: u64 = 0x7FEF_FFFF_FFFF_FFFF;

/// The pattern of the least finite number.
pub const LEAST_FINITE: u64 = 0xFFEF_FFFF_FFFF_FFFF;

/// The greater of two numbers. A NaN gives way to the other operand, and
/// of two equal numbers the first is kept.
pub open spec fn spec_greater(a: u64, b: u64) -> u64 {
    if is_nan(b) {
        a
    } else if is_nan(a) {
        b
    } else if order_key(b) > order_key(a) {
        b
    } else {
        a
    }
}

/// The lesser of two numbers. A NaN gives way to the other operand, and
/// of two equal numbers the first is kept.
pub open spec fn spec_lesser(a: u64, b: u64) -> u64 {
    if is_nan(b) {
        a
    } else if is_nan(a) {
        b
    } else if order_key(b) < order_key(a) {
        b
    } else {
        a
    }
}

/// The greatest of `start` and the elements of `values`.
pub open spec fn highest_from(start: u64, values: Seq<u64>) -> u64
    decreases values.len(),
{
    if values.len() == 0 {
        start
    } else {
        spec_greater(highest_from(start, values.drop_last()), values.last())
    }
}

/// The least of `start` and the elements of `values`.
pub open spec fn lowest_from(start: u64, values: Seq<u64>) -> u64
    decreases values.len(),
{
    if values.len() == 0 {
        start
    } else {
        spec_lesser(lowest_from(start, values.drop_last()), values.last())
    }
}

/// The greatest price of all paths, and the least finite number where
/// there is none above it.
pub open spec fn highest_of_paths(paths: Seq<Seq<u64>>) -> u64
    decreases paths.len(),
{
    if paths.len() == 0 {
        LEAST_FINITE
    } else {
        highest_from(highest_of_paths(paths.drop_last()), paths.last())
    }
}

/// The least price of all paths, and the greatest finite number where
/// there is none below it.
pub open spec fn lowest_of_paths(paths: Seq<Seq<u64>>) -> u64
    decreases paths.len(),
{
    if paths.len() == 0 {
        GREATEST_FINITE
    } else {
        lowest_from(lowest_of_paths(paths.drop_last()), paths.last())
    }
}

/// Picks the greater of two numbers.
#[verifier::when_used_as_spec(spec_greater)]
pub fn greater(a: u64, b: u64) -> (r: u64)
    ensures
        r == spec_greater(a, b),
{
    if is_nan(b) {
        a
    } else if is_nan(a) {
        b
    } else if order_key(b) > order_key(a) {
        b
    } else {
        a
    }
}

/// Picks the lesser of two numbers.
#[verifier::when_used_as_spec(spec_lesser)]
pub fn lesser(a: u64, b: u64) -> (r: u64)
    ensures
        r == spec_lesser(a, b),
{
    if is_nan(b) {
        a
    } else if is_nan(a) {
        b
    } else if order_key(b) < order_key(a) {
        b
    } else {
        a
    }
}

/// Unless it is a NaN itself, the greatest of `start` and `values` is a
/// number that no number among them exceeds, and it is one of them.
pub proof fn lemma_highest_from(start: u64, values: Seq<u64>)
    requires
        !is_nan(start),
    ensures
        !is_nan(highest_from(start, values)),
        order_key(start) <= order_key(highest_from(start, values)),
        forall|i: int|
            0 <= i < values.len() && !is_nan(values[i]) ==> order_key(#[trigger] values[i])
                <= order_key(highest_from(start, values)),
        highest_from(start, values) == start || values.contains(highest_from(start, values)),
    decreases values.len(),
{
    if values.len() > 0 {
        let front = values.drop_last();
        lemma_highest_from(start, front);
        let best = highest_from(start, front);
        assert forall|i: int| 0 <= i < values.len() && !is_nan(values[i]) implies order_key(
            #[trigger] values[i],
        ) <= order_key(highest_from(start, values)) by {
            if i < front.len() {
                assert(front[i] == values[i]);
            }
        }
        if highest_from(start, values) != start {
            if highest_from(start, values) == values.last() {
                assert(values[values.len() - 1] == values.last());
            } else {
                assert(front.contains(best));
                let j = choose|j: int| 0 <= j < front.len() && front[j] == best;
                assert(values[j] == best);
            }
        }
    }
}

/// Unless it is a NaN itself, the least of `start` and `values` is a
/// number that no number among them falls below, and it is one of them.
pub proof fn lemma_lowest_from(start: u64, values: Seq<u64>)
    requires
        !is_nan(start),
    ensures
        !is_nan(lowest_from(start, values)),
        order_key(start) >= order_key(lowest_from(start, values)),
        forall|i: int|
            0 <= i < values.len() && !is_nan(values[i]) ==> order_key(#[trigger] values[i])
                >= order_key(lowest_from(start, values)),
        lowest_from(start, values) == start || values.contains(lowest_from(start, values)),
    decreases values.len(),
{
    if values.len() > 0 {
        let front = values.drop_last();
        lemma_lowest_from(start, front);
        let best = lowest_from(start, front);
        assert forall|i: int| 0 <= i < values.len() && !is_nan(values[i]) implies order_key(
            #[trigger] values[i],
        ) >= order_key(lowest_from(start, values)) by {
            if i < front.len() {
                assert(front[i] == values[i]);
            }
        }
        if lowest_from(start, values) != start {
            if lowest_from(start, values) == values.last() {
                assert(values[values.len() - 1] == values.last());
            } else {
                assert(front.contains(best));
                let j = choose|j: int| 0 <= j < front.len() && front[j] == best;
                assert(values[j] == best);
            }
        }
    }
}

/// Finds the greatest of `start` and the elements of `values`.
pub fn highest(start: u64, values: &Vec<u64>) -> (r: u64)
    ensures
        r == highest_from(start, values@),
{
    let mut best: u64 = start;
    let mut i: usize = 0;
    while i < values.len()
        invariant
            i <= values.len(),
            best == highest_from(start, values@.take(i as int)),
        decreases values.len() - i,
    {
        assert(values@.take(i + 1).drop_last() =~= values@.take(i as int));
        best = greater(best, values[i]);
        i += 1;
    }
    assert(values@.take(values.len() as int) =~= values@);
    best
}

/// Finds the least of `start` and the elements of `values`.
pub fn lowest(start: u64, values: &Vec<u64>) -> (r: u64)
    ensures
        r == lowest_from(start, values@),
{
    let mut best: u64 = start;
    let mut i: usize = 0;
    while i < values.len()
        invariant
            i <= values.len(),
            best == lowest_from(start, values@.take(i as int)),
        decreases values.len() - i,
    {
        assert(values@.take(i + 1).drop_last() =~= values@.take(i as int));
        best = lesser(best, values[i]);
        i += 1;
    }
    assert(values@.take(values.len() as int) =~= values@);
    best
}

/// Finds the least and the greatest price of all paths: the range of the
/// price axis.
pub fn price_range(paths: &Vec<Vec<u64>>) -> (r: (u64, u64))
    ensures
        r.0 == lowest_of_paths(paths_view(*paths)),
        r.1 == highest_of_paths(paths_view(*paths)),
{
    let mut low: u64 = GREATEST_FINITE;
    let mut high: u64 = LEAST_FINITE;
    let mut i: usize = 0;
    let ghost all = paths_view(*paths);
    while i < paths.len()
        invariant
            i <= paths.len(),
            all == paths_view(*paths),
            low == lowest_of_paths(all.take(i as int)),
            high == highest_of_paths(all.take(i as int)),
        decreases paths.len() - i,
    {
        assert(all.take(i + 1).drop_last() =~= all.take(i as int));
        assert(all.take(i + 1).last() == paths@[i as int]@);
        low = lowest(low, &paths[i]);
        high = highest(high, &paths[i]);
        i += 1;
    }
    assert(all.take(paths.len() as int) =~= all);
    (low, high)
}

/// The width of a bin: the span from `low` to `high` divided by the number
/// of bins.
pub open spec fn bin_width<A: Fn(Operation, u64, u64) -> u64>(unit: &A, low: u64, high: u64) -> u64 {
    quotient(unit, difference(unit, high, low), from_count(unit, HISTOGRAM_BINS as nat))
}

/// The bin of `value`: its distance from `low` in widths, truncated, and
/// the last bin for everything that would lie beyond it.
pub open spec fn bin_index<A: Fn(Operation, u64, u64) -> u64>(
    unit: &A,
    low: u64,
    width: u64,
    value: u64,
) -> int {
    let raw = to_count(unit, quotient(unit, difference(unit, value, low), width));
    if raw >= HISTOGRAM_BINS {
        HISTOGRAM_BINS - 1
    } else {
        raw as int
    }
}

/// The predicate "falls into bin `bin`".
pub open spec fn in_bin<A: Fn(Operation, u64, u64) -> u64>(
    unit: &A,
    low: u64,
    width: u64,
    bin: int,
) -> spec_fn(u64) -> bool {
    |value: u64| bin_index(unit, low, width, value) == bin
}

/// The number of elements of `data` in each bin.
pub open spec fn bin_counts<A: Fn(Operation, u64, u64) -> u64>(
    unit: &A,
    low: u64,
    width: u64,
    data: Seq<u64>,
) -> Seq<nat> {
    Seq::new(HISTOGRAM_BINS as nat, |bin: int| data.filter(in_bin(unit, low, width, bin)).len())
}

/// Where bin `bin` starts: `low + bin * width`.
pub open spec fn bin_start<A: Fn(Operation, u64, u64) -> u64>(
    unit: &A,
    low: u64,
    width: u64,
    bin: nat,
) -> u64 {
    sum(unit, low, product(unit, from_count(unit, bin), width))
}

/// Where bin `bin` ends: its start plus the width.
pub open spec fn bin_end<A: Fn(Operation, u64, u64) -> u64>(
    unit: &A,
    low: u64,
    width: u64,
    bin: nat,
) -> u64 {
    sum(unit, bin_start(unit, low, width, bin), width)
}

/// The sum of the first `upto` counts.
pub open spec fn counted(counts: Seq<nat>, upto: int) -> nat
    decreases upto,
{
    if upto <= 0 {
        0
    } else {
        counted(counts, upto - 1) + counts[upto - 1]
    }
}

/// A histogram of equal bins between the least and the greatest value.
#[derive(Clone, Debug)]
pub struct Histogram {
    /// The least value: the start of the first bin.
    pub low: u64,
    /// The greatest value.
    pub high: u64,
    /// The width of every bin.
    pub width: u64,
    /// The number of values in each bin.
    pub counts: Vec<usize>,
    /// The greatest of the counts.
    pub tallest: usize,
}

impl Histogram {
    /// This is the histogram of `data`.
    pub open spec fn describes<A: Fn(Operation, u64, u64) -> u64>(
        &self,
        unit: &A,
        data: Seq<u64>,
    ) -> bool {
        &&& self.low == lowest_from(GREATEST_FINITE, data)
        &&& self.high == highest_from(LEAST_FINITE, data)
        &&& self.width == bin_width(unit, self.low, self.high)
        &&& self.counts@.len() == HISTOGRAM_BINS
        &&& forall|bin: int|
            0 <= bin < HISTOGRAM_BINS ==> #[trigger] self.counts@[bin] == bin_counts(
                unit,
                self.low,
                self.width,
                data,
            )[bin]
        &&& forall|bin: int| 0 <= bin < HISTOGRAM_BINS ==> #[trigger] self.counts@[bin] <= self.tallest
        &&& exists|bin: int| 0 <= bin < HISTOGRAM_BINS && #[trigger] self.counts@[bin] == self.tallest
    }

    /// Computes where a bin starts and where it ends.
    pub fn bin_edges<A: Fn(Operation, u64, u64) -> u64>(&self, bin: usize, unit: &A) -> (r: (
        u64,
        u64,
    ))
        requires
            well_defined(unit),
        ensures
            r.0 == bin_start(unit, self.low, self.width, bin as nat),
            r.1 == bin_end(unit, self.low, self.width, bin as nat),
    {
        let offset: u64 = apply(unit, Operation::Multiply, count(unit, bin), self.width);
        let start: u64 = apply(unit, Operation::Add, self.low, offset);
        let end: u64 = apply(unit, Operation::Add, start, self.width);
        (start, end)
    }
}

/// Adding one value to the data adds one to the count of its bin and
/// leaves the other counts as they are.
proof fn lemma_count_one_more<A: Fn(Operation, u64, u64) -> u64>(
    unit: &A,
    low: u64,
    width: u64,
    seen: Seq<u64>,
    value: u64,
)
    ensures
        forall|bin: int|
            0 <= bin < HISTOGRAM_BINS ==> #[trigger] bin_counts(
                unit,
                low,
                width,
                seen.push(value),
            )[bin] == bin_counts(unit, low, width, seen)[bin] + (if bin == bin_index(
                unit,
                low,
                width,
                value,
            ) {
                1nat
            } else {
                0nat
            }),
        0 <= bin_index(unit, low, width, value) < HISTOGRAM_BINS,
{
    assert forall|bin: int| 0 <= bin < HISTOGRAM_BINS implies #[trigger] bin_counts(
        unit,
        low,
        width,
        seen.push(value),
    )[bin] == bin_counts(unit, low, width, seen)[bin] + (if bin == bin_index(
        unit,
        low,
        width,
        value,
    ) {
        1nat
    } else {
        0nat
    }) by {
        seen.lemma_filter_push(value, in_bin(unit, low, width, bin));
    }
}

/// Every value is counted in one bin and in one only: the counts add up
/// to the number of values.
pub proof fn lemma_counts_add_up<A: Fn(Operation, u64, u64) -> u64>(
    unit: &A,
    low: u64,
    width: u64,
    data: Seq<u64>,
)
    ensures
        counted(bin_counts(unit, low, width, data), HISTOGRAM_BINS as int) == data.len(),
    decreases data.len(),
{
    if data.len() == 0 {
        let counts = bin_counts(unit, low, width, data);
        assert forall|bin: int| 0 <= bin < HISTOGRAM_BINS implies counts[bin] == 0 by {
            data.lemma_filter_len(in_bin(unit, low, width, bin));
        }
        lemma_counted_zero(counts, HISTOGRAM_BINS as int);
    } else {
        let front = data.drop_last();
        lemma_counts_add_up(unit, low, width, front);
        lemma_count_one_more(unit, low, width, front, data.last());
        assert(front.push(data.last()) =~= data);
        lemma_counted_one_more(
            bin_counts(unit, low, width, front),
            bin_counts(unit, low, width, data),
            bin_index(unit, low, width, data.last()),
            HISTOGRAM_BINS as int,
        );
    }
}

proof fn lemma_counted_zero(counts: Seq<nat>, upto: int)
    requires
        0 <= upto <= counts.len(),
        forall|bin: int| 0 <= bin < upto ==> counts[bin] == 0,
    ensures
        counted(counts, upto) == 0,
    decreases upto,
{
    if upto > 0 {
        lemma_counted_zero(counts, upto - 1);
    }
}

proof fn lemma_counted_one_more(before: Seq<nat>, after: Seq<nat>, at: int, upto: int)
    requires
        0 <= upto <= before.len(),
        before.len() == after.len(),
        forall|bin: int|
            0 <= bin < upto ==> after[bin] == before[bin] + (if bin == at {
                1nat
            } else {
                0nat
            }),
    ensures
        counted(after, upto) == counted(before, upto) + (if 0 <= at < upto {
            1nat
        } else {
            0nat
        }),
    decreases upto,
{
    if upto > 0 {
        lemma_counted_one_more(before, after, at, upto - 1);
    }
}

/// Builds the histogram of `data`: thirty bins of equal width from the
/// least value to the greatest, a value on or beyond the upper end
/// counting in the last bin.
pub fn histogram<A: Fn(Operation, u64, u64) -> u64>(data: &Vec<u64>, unit: &A) -> (h: Histogram)
    requires
        well_defined(unit),
    ensures
        h.describes(unit, data@),
{
    let high: u64 = highest(LEAST_FINITE, data);
    let low: u64 = lowest(GREATEST_FINITE, data);
    let width: u64 = apply(
        unit,
        Operation::Divide,
        apply(unit, Operation::Subtract, high, low),
        count(unit, HISTOGRAM_BINS),
    );
    let mut counts: Vec<usize> = Vec::new();
    let mut b: usize = 0;
    while b < HISTOGRAM_BINS
        invariant
            b <= HISTOGRAM_BINS,
            counts@.len() == b,
            forall|bin: int| 0 <= bin < b ==> counts@[bin] == 0,
        decreases HISTOGRAM_BINS - b,
    {
        counts.push(0);
        b += 1;
    }
    let mut i: usize = 0;
    proof {
        assert(data@.take(0) =~= Seq::<u64>::empty());
        assert forall|bin: int| 0 <= bin < HISTOGRAM_BINS implies #[trigger] counts@[bin]
            == bin_counts(unit, low, width, data@.take(0))[bin] by {
            data@.take(0).lemma_filter_len(in_bin(unit, low, width, bin));
        }
    }
    while i < data.len()
        invariant
            well_defined(unit),
            i <= data.len(),
            counts@.len() == HISTOGRAM_BINS,
            forall|bin: int|
                0 <= bin < HISTOGRAM_BINS ==> #[trigger] counts@[bin] == bin_counts(
                    unit,
                    low,
                    width,
                    data@.take(i as int),
                )[bin],
        decreases data.len() - i,
    {
        let value: u64 = data[i];
        let distance: u64 = apply(
            unit,
            Operation::Divide,
            apply(unit, Operation::Subtract, value, low),
            width,
        );
        let raw: u64 = apply(unit, Operation::ToCount, distance, 0);
        let bin: usize = if raw >= HISTOGRAM_BINS as u64 {
            HISTOGRAM_BINS - 1
        } else {
            raw as usize
        };
        proof {
            let seen = data@.take(i as int);
            assert(data@.take(i + 1) =~= seen.push(value));
            lemma_count_one_more(unit, low, width, seen, value);
            seen.lemma_filter_len(in_bin(unit, low, width, bin as int));
            assert(counts@[bin as int] == bin_counts(unit, low, width, seen)[bin as int]);
        }
        let bumped: usize = counts[bin] + 1;
        counts.set(bin, bumped);
        i += 1;
    }
    assert(data@.take(data.len() as int) =~= data@);
    let mut tallest: usize = counts[0];
    let mut k: usize = 1;
    while k < HISTOGRAM_BINS
        invariant
            1 <= k <= HISTOGRAM_BINS,
            counts@.len() == HISTOGRAM_BINS,
            forall|bin: int| 0 <= bin < k ==> #[trigger] counts@[bin] <= tallest,
            exists|bin: int| 0 <= bin < k && #[trigger] counts@[bin] == tallest,
        decreases HISTOGRAM_BINS - k,
    {
        if counts[k] > tallest {
            tallest = counts[k];
        }
        k += 1;
    }
    let h = Histogram { low, high, width, counts, tallest };
    proof {
        let top = choose|bin: int| 0 <= bin < HISTOGRAM_BINS && #[trigger] h.counts@[bin] == tallest;
        assert(0 <= top < HISTOGRAM_BINS && h.counts@[top] == h.tallest);
        assert(forall|bin: int|
            0 <= bin < HISTOGRAM_BINS ==> #[trigger] h.counts@[bin] == bin_counts(
                unit,
                h.low,
                h.width,
                data@,
            )[bin]);
        assert(forall|bin: int| 0 <= bin < HISTOGRAM_BINS ==> #[trigger] h.counts@[bin] <= h.tallest);
    }
    h
}

} // verus!
