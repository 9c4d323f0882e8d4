//! Ascending order on bit patterns, and the stable sort that establishes it.

use crate::bits::{order_key, spec_order_key};
use vstd::prelude::*;

verus! {

/// The predicate "has rank `k`".
pub open spec fn has_key(k: i64) -> spec_fn(u64) -> bool {
    |x: u64| order_key(x) == k
}

/// No element of `s` ranks below an earlier one.
pub open spec fn ascending(s: Seq<u64>) -> bool {
    forall|i: int, j: int| 0 <= i <= j < s.len() ==> order_key(s[i]) <= order_key(s[j])
}

/// `out` is `input` rearranged in ascending order, elements of equal rank
/// keeping the order they have in `input`: for every rank, the elements of
/// that rank are the same sequence on both sides.
pub open spec fn stable_sort_of(out: Seq<u64>, input: Seq<u64>) -> bool {
    &&& ascending(out)
    &&& forall|k: i64| #[trigger] out.filter(has_key(k)) == input.filter(has_key(k))
}

/// The ascending, stable rearrangement of `input`.
pub open spec fn sorted_copy(input: Seq<u64>) -> Seq<u64> {
    choose|out: Seq<u64>| stable_sort_of(out, input)
}

proof fn lemma_first_of_its_rank(s: Seq<u64>)
    requires
        s.len() > 0,
    ensures
        s.filter(has_key(order_key(s[0]))).len() > 0,
        s.filter(has_key(order_key(s[0])))[0] == s[0],
        forall|k: i64|
            #![trigger s.filter(has_key(k))]
            k != order_key(s[0]) ==> s.filter(has_key(k)) == s.skip(1).filter(has_key(k)),
        s.filter(has_key(order_key(s[0]))) == seq![s[0]] + s.skip(1).filter(
            has_key(order_key(s[0])),
        ),
{
    let rest = s.skip(1);
    assert(s =~= seq![s[0]] + rest);
    assert forall|k: i64| #![trigger s.filter(has_key(k))] true implies s.filter(has_key(k)) == (
    if order_key(s[0]) == k {
        seq![s[0]]
    } else {
        Seq::<u64>::empty()
    }) + rest.filter(has_key(k)) by {
        rest.lemma_filter_prepend(s[0], has_key(k));
        assert(has_key(k)(s[0]) == (order_key(s[0]) == k));
    }
    let k0 = order_key(s[0]);
    assert(s.filter(has_key(k0)) == seq![s[0]] + rest.filter(has_key(k0)));
    assert forall|k: i64| #![trigger s.filter(has_key(k))] k != k0 implies s.filter(has_key(k))
        == rest.filter(has_key(k)) by {
        assert(s.filter(has_key(k)) == Seq::<u64>::empty() + rest.filter(has_key(k)));
        assert(Seq::<u64>::empty() + rest.filter(has_key(k)) =~= rest.filter(has_key(k)));
    }
}

proof fn lemma_rank_present(s: Seq<u64>, k: i64)
    requires
        s.filter(has_key(k)).len() > 0,
    ensures
        exists|i: int| 0 <= i < s.len() && order_key(s[i]) == k,
{
    let f = s.filter(has_key(k));
    s.lemma_filter_pred(has_key(k), 0);
    assert(has_key(k)(f[0]));
    s.lemma_filter_contains_rev(has_key(k), f[0]);
    assert(f.contains(f[0]));
    assert(s.contains(f[0]));
    let i = choose|i: int| 0 <= i < s.len() && s[i] == f[0];
    assert(order_key(s[i]) == k);
}

/// Two ascending sequences that agree rank by rank are the same sequence.
pub proof fn lemma_rank_by_rank_equal(a: Seq<u64>, b: Seq<u64>)
    requires
        ascending(a),
        ascending(b),
        forall|k: i64| #[trigger] a.filter(has_key(k)) == b.filter(has_key(k)),
    ensures
        a == b,
    decreases a.len(),
{
    if a.len() == 0 {
        if b.len() > 0 {
            lemma_first_of_its_rank(b);
            let kb = order_key(b[0]);
            assert(a.filter(has_key(kb)) == b.filter(has_key(kb)));
            a.lemma_filter_len(has_key(kb));
        }
        assert(a =~= b);
    } else {
        lemma_first_of_its_rank(a);
        let ka = order_key(a[0]);
        assert(a.filter(has_key(ka)) == b.filter(has_key(ka)));
        b.lemma_filter_len(has_key(ka));
        assert(b.len() > 0);
        lemma_first_of_its_rank(b);
        let kb = order_key(b[0]);
        assert(a.filter(has_key(kb)) == b.filter(has_key(kb)));
        lemma_rank_present(a, kb);
        lemma_rank_present(b, ka);
        assert(ka == kb);
        assert(a[0] == b[0]);
        let ar = a.skip(1);
        let br = b.skip(1);
        assert forall|k: i64| #[trigger] ar.filter(has_key(k)) == br.filter(has_key(k)) by {
            assert(a.filter(has_key(k)) == b.filter(has_key(k)));
            if k == ka {
                let x = seq![a[0]];
                assert(x + ar.filter(has_key(k)) == x + br.filter(has_key(k)));
                assert forall|i: int| 0 <= i < ar.filter(has_key(k)).len() implies ar.filter(
                    has_key(k),
                )[i] == br.filter(has_key(k))[i] by {
                    assert((x + ar.filter(has_key(k)))[i + 1] == ar.filter(has_key(k))[i]);
                    assert((x + br.filter(has_key(k)))[i + 1] == br.filter(has_key(k))[i]);
                }
                assert((x + ar.filter(has_key(k))).len() == (x + br.filter(has_key(k))).len());
                assert(ar.filter(has_key(k)) =~= br.filter(has_key(k)));
            }
        }
        assert(ascending(ar)) by {
            assert forall|i: int, j: int| 0 <= i <= j < ar.len() implies order_key(ar[i])
                <= order_key(ar[j]) by {
                assert(ar[i] == a[i + 1] && ar[j] == a[j + 1]);
            }
        }
        assert(ascending(br)) by {
            assert forall|i: int, j: int| 0 <= i <= j < br.len() implies order_key(br[i])
                <= order_key(br[j]) by {
                assert(br[i] == b[i + 1] && br[j] == b[j + 1]);
            }
        }
        lemma_rank_by_rank_equal(ar, br);
        assert(a =~= seq![a[0]] + ar);
        assert(b =~= seq![b[0]] + br);
    }
}

/// A sequence has at most one stable sort.
pub proof fn lemma_stable_sort_unique(a: Seq<u64>, b: Seq<u64>, input: Seq<u64>)
    requires
        stable_sort_of(a, input),
        stable_sort_of(b, input),
    ensures
        a == b,
{
    assert forall|k: i64| #[trigger] a.filter(has_key(k)) == b.filter(has_key(k)) by {
        assert(a.filter(has_key(k)) == input.filter(has_key(k)));
        assert(b.filter(has_key(k)) == input.filter(has_key(k)));
    }
    lemma_rank_by_rank_equal(a, b);
}

/// Placing `x` behind everything that does not rank above it keeps a
/// stable sort stable.
proof fn lemma_insert_keeps_stable(sorted: Seq<u64>, seen: Seq<u64>, x: u64, j: int)
    requires
        stable_sort_of(sorted, seen),
        0 <= j <= sorted.len(),
        forall|t: int| 0 <= t < j ==> order_key(sorted[t]) <= order_key(x),
        forall|t: int| j <= t < sorted.len() ==> order_key(sorted[t]) > order_key(x),
    ensures
        stable_sort_of(sorted.insert(j, x), seen.push(x)),
{
    let left = sorted.subrange(0, j);
    let right = sorted.subrange(j, sorted.len() as int);
    let out = sorted.insert(j, x);
    assert(sorted =~= left + right);
    assert(out =~= left.push(x) + right);
    assert(ascending(out)) by {
        assert forall|a: int, b: int| 0 <= a <= b < out.len() implies order_key(out[a])
            <= order_key(out[b]) by {
            if a < j {
                assert(out[a] == sorted[a]);
            } else if a > j {
                assert(out[a] == sorted[a - 1]);
            }
            if b < j {
                assert(out[b] == sorted[b]);
            } else if b > j {
                assert(out[b] == sorted[b - 1]);
            }
        }
    }
    assert forall|k: i64| #[trigger] out.filter(has_key(k)) == seen.push(x).filter(has_key(k)) by {
        let p = has_key(k);
        assert(sorted.filter(p) == seen.filter(p));
        Seq::filter_distributes_over_add(left, right, p);
        Seq::filter_distributes_over_add(left.push(x), right, p);
        left.lemma_filter_push(x, p);
        seen.lemma_filter_push(x, p);
        if p(x) {
            assert(right.all(|y: u64| !p(y))) by {
                assert forall|t: int| 0 <= t < right.len() implies !p(#[trigger] right[t]) by {
                    assert(right[t] == sorted[j + t]);
                }
            }
            right.lemma_all_neg_filter_empty(p);
            assert(left.filter(p) + right.filter(p) =~= left.filter(p));
            assert(left.filter(p).push(x) + right.filter(p) =~= left.filter(p).push(x));
        }
    }
}

/// Every sequence has a stable sort, and it is a permutation of the sequence.
pub proof fn lemma_stable_sort_exists(input: Seq<u64>) -> (out: Seq<u64>)
    ensures
        stable_sort_of(out, input),
        out.len() == input.len(),
        out.to_multiset() == input.to_multiset(),
    decreases input.len(),
{
    broadcast use vstd::seq_lib::group_to_multiset_ensures;

    if input.len() == 0 {
        assert(input =~= Seq::<u64>::empty());
        input
    } else {
        let x = input.last();
        let prefix = input.drop_last();
        let sorted = lemma_stable_sort_exists(prefix);
        let j = insertion_point(sorted, x);
        lemma_insertion_point(sorted, x);
        lemma_insert_keeps_stable(sorted, prefix, x, j);
        assert(prefix.push(x) =~= input);
        sorted.insert(j, x)
    }
}

/// The number of leading elements of `s` that do not rank above `x`.
spec fn insertion_point(s: Seq<u64>, x: u64) -> int
    decreases s.len(),
{
    if s.len() == 0 {
        0
    } else if order_key(s.last()) > order_key(x) {
        insertion_point(s.drop_last(), x)
    } else {
        s.len() as int
    }
}

proof fn lemma_insertion_point(s: Seq<u64>, x: u64)
    requires
        ascending(s),
    ensures
        0 <= insertion_point(s, x) <= s.len(),
        forall|t: int| 0 <= t < insertion_point(s, x) ==> order_key(s[t]) <= order_key(x),
        forall|t: int| insertion_point(s, x) <= t < s.len() ==> order_key(s[t]) > order_key(x),
    decreases s.len(),
{
    if s.len() > 0 && order_key(s.last()) > order_key(x) {
        let d = s.drop_last();
        assert(ascending(d)) by {
            assert forall|i: int, j: int| 0 <= i <= j < d.len() implies order_key(d[i])
                <= order_key(d[j]) by {
                assert(d[i] == s[i] && d[j] == s[j]);
            }
        }
        lemma_insertion_point(d, x);
        assert forall|t: int| 0 <= t < insertion_point(s, x) implies order_key(s[t]) <= order_key(
            x,
        ) by {
            assert(d[t] == s[t]);
        }
        assert forall|t: int| insertion_point(s, x) <= t < s.len() implies order_key(s[t])
            > order_key(x) by {
            if t < d.len() {
                assert(d[t] == s[t]);
            }
        }
    } else if s.len() > 0 {
        assert forall|t: int| 0 <= t < s.len() implies order_key(s[t]) <= order_key(x) by {
            assert(order_key(s[t]) <= order_key(s[s.len() - 1]));
        }
    }
}

/// `sorted_copy` is a stable sort of its argument, of the same length and
/// with the same elements, each as often.
pub proof fn lemma_sorted_copy(input: Seq<u64>)
    ensures
        stable_sort_of(sorted_copy(input), input),
        sorted_copy(input).len() == input.len(),
        sorted_copy(input).to_multiset() == input.to_multiset(),
{
    let witness = lemma_stable_sort_exists(input);
    lemma_stable_sort_unique(sorted_copy(input), witness, input);
}

/// Merges two ascending runs, the elements of `a` going before those of
/// `b` that have the same rank.
fn merge(a: &Vec<u64>, b: &Vec<u64>) -> (out: Vec<u64>)
    requires
        ascending(a@),
        ascending(b@),
    ensures
        ascending(out@),
        out@.len() == a@.len() + b@.len(),
        forall|k: i64|
            #![trigger out@.filter(has_key(k))]
            out@.filter(has_key(k)) == a@.filter(has_key(k)) + b@.filter(has_key(k)),
{
    let mut out: Vec<u64> = Vec::new();
    let mut i: usize = 0;
    let mut j: usize = 0;
    proof {
        assert(a@.take(0) =~= Seq::<u64>::empty());
        assert(b@.take(0) =~= Seq::<u64>::empty());
        assert forall|k: i64|
            #![trigger out@.filter(has_key(k))]
            out@.filter(has_key(k)) == a@.take(0).filter(has_key(k)) + b@.take(0).filter(
                has_key(k),
            ) by {
            out@.lemma_filter_len(has_key(k));
            assert(out@.filter(has_key(k)) =~= Seq::<u64>::empty());
        }
    }
    while i < a.len() || j < b.len()
        invariant
            i <= a.len(),
            j <= b.len(),
            out@.len() == i + j,
            ascending(a@),
            ascending(b@),
            ascending(out@),
            i < a.len() ==> forall|t: int| 0 <= t < out@.len() ==> order_key(out@[t]) <= order_key(
                a@[i as int],
            ),
            j < b.len() ==> forall|t: int| 0 <= t < out@.len() ==> order_key(out@[t]) <= order_key(
                b@[j as int],
            ),
            i < a.len() ==> forall|t: int| 0 <= t < j ==> order_key(b@[t]) < order_key(
                a@[i as int],
            ),
            forall|k: i64|
                #![trigger out@.filter(has_key(k))]
                out@.filter(has_key(k)) == a@.take(i as int).filter(has_key(k)) + b@.take(
                    j as int,
                ).filter(has_key(k)),
        decreases a.len() - i + (b.len() - j),
    {
        let from_a: bool = if j >= b.len() {
            true
        } else if i >= a.len() {
            false
        } else {
            order_key(a[i]) <= order_key(b[j])
        };
        let ghost before = out@;
        if from_a {
            let x: u64 = a[i];
            out.push(x);
            proof {
                assert(a@.take(i + 1) =~= a@.take(i as int).push(x));
                assert forall|k: i64|
                    #![trigger out@.filter(has_key(k))]
                    out@.filter(has_key(k)) == a@.take(i + 1).filter(has_key(k)) + b@.take(
                        j as int,
                    ).filter(has_key(k)) by {
                    let p = has_key(k);
                    let fa = a@.take(i as int).filter(p);
                    let fb = b@.take(j as int).filter(p);
                    assert(before.filter(p) == fa + fb);
                    before.lemma_filter_push(x, p);
                    a@.take(i as int).lemma_filter_push(x, p);
                    if p(x) {
                        let bt = b@.take(j as int);
                        assert(bt.all(|y: u64| !p(y))) by {
                            assert forall|t: int| 0 <= t < bt.len() implies !p(#[trigger] bt[t]) by {
                                assert(bt[t] == b@[t]);
                            }
                        }
                        bt.lemma_all_neg_filter_empty(p);
                        assert((fa + fb).push(x) =~= fa.push(x) + fb);
                    }
                }
                assert(ascending(out@)) by {
                    assert forall|s: int, t: int| 0 <= s <= t < out@.len() implies order_key(
                        out@[s],
                    ) <= order_key(out@[t]) by {
                        if t < before.len() {
                            assert(out@[s] == before[s] && out@[t] == before[t]);
                        } else if s < before.len() {
                            assert(out@[s] == before[s]);
                        }
                    }
                }
            }
            i += 1;
        } else {
            let x: u64 = b[j];
            out.push(x);
            proof {
                assert(b@.take(j + 1) =~= b@.take(j as int).push(x));
                assert forall|k: i64|
                    #![trigger out@.filter(has_key(k))]
                    out@.filter(has_key(k)) == a@.take(i as int).filter(has_key(k)) + b@.take(
                        j + 1,
                    ).filter(has_key(k)) by {
                    let p = has_key(k);
                    let fa = a@.take(i as int).filter(p);
                    let fb = b@.take(j as int).filter(p);
                    assert(before.filter(p) == fa + fb);
                    before.lemma_filter_push(x, p);
                    b@.take(j as int).lemma_filter_push(x, p);
                    if p(x) {
                        assert((fa + fb).push(x) =~= fa + fb.push(x));
                    }
                }
                assert(ascending(out@)) by {
                    assert forall|s: int, t: int| 0 <= s <= t < out@.len() implies order_key(
                        out@[s],
                    ) <= order_key(out@[t]) by {
                        if t < before.len() {
                            assert(out@[s] == before[s] && out@[t] == before[t]);
                        } else if s < before.len() {
                            assert(out@[s] == before[s]);
                        }
                    }
                }
            }
            j += 1;
        }
    }
    proof {
        assert(a@.take(i as int) =~= a@);
        assert(b@.take(j as int) =~= b@);
    }
    out
}

/// Sorts the elements of `values` from index `lo` up to `hi`.
fn sort_range(values: &Vec<u64>, lo: usize, hi: usize) -> (out: Vec<u64>)
    requires
        lo <= hi <= values.len(),
    ensures
        stable_sort_of(out@, values@.subrange(lo as int, hi as int)),
        out@.len() == hi - lo,
    decreases hi - lo,
{
    let ghost range = values@.subrange(lo as int, hi as int);
    if hi - lo <= 1 {
        let mut out: Vec<u64> = Vec::new();
        if hi > lo {
            out.push(values[lo]);
        }
        assert(out@ =~= range);
        out
    } else {
        let mid: usize = lo + (hi - lo) / 2;
        let left = sort_range(values, lo, mid);
        let right = sort_range(values, mid, hi);
        let out = merge(&left, &right);
        proof {
            let l = values@.subrange(lo as int, mid as int);
            let r = values@.subrange(mid as int, hi as int);
            assert(range =~= l + r);
            assert forall|k: i64| #[trigger] out@.filter(has_key(k)) == range.filter(has_key(k)) by {
                Seq::filter_distributes_over_add(l, r, has_key(k));
                assert(left@.filter(has_key(k)) == l.filter(has_key(k)));
                assert(right@.filter(has_key(k)) == r.filter(has_key(k)));
            }
        }
        out
    }
}

/// Returns the elements of `values` in ascending order, elements of equal
/// rank (the two zeros) in the order in which `values` has them.
pub fn sort_ascending(values: &Vec<u64>) -> (out: Vec<u64>)
    ensures
        out@ == sorted_copy(values@),
        stable_sort_of(out@, values@),
        out@.len() == values@.len(),
        out@.to_multiset() == values@.to_multiset(),
{
    let out = sort_range(values, 0, values.len());
    proof {
        assert(values@.subrange(0, values.len() as int) =~= values@);
        lemma_sorted_copy(values@);
        lemma_stable_sort_unique(out@, sorted_copy(values@), values@);
    }
    out
}

} // verus!
