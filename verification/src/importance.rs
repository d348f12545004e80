//! Load-time ordering of records by descending importance.
//!
//! The importance of a record is handed in as an integer key whose order is
//! the order of the importances (for a non-negative IEEE-754 number, its bit
//! pattern is such a key).

use vstd::prelude::*;
use crate::permutation::{indices_of, is_permutation, lemma_injection_is_permutation};

verus! {

/// The importance keys of a vector, as mathematical integers.
pub open spec fn importances_of(keys: Seq<u32>) -> Seq<int> {
    keys.map_values(|k: u32| k as int)
}

/// Record `a` is written before record `b`: the more important one first, and
/// of two equally important records the earlier one first.
pub open spec fn outranks(keys: Seq<int>, a: int, b: int) -> bool {
    keys[a] > keys[b] || (keys[a] == keys[b] && a < b)
}

/// `order` holds its records most important first, equally important records
/// in the relative order they came in.
pub open spec fn is_importance_order(keys: Seq<int>, order: Seq<int>) -> bool {
    forall|p: int, q: int|
        0 <= p < q < order.len() ==> outranks(keys, #[trigger] order[p], #[trigger] order[q])
}

/// Every record of `order` lies in `lo..hi`.
pub open spec fn within(order: Seq<int>, lo: int, hi: int) -> bool {
    forall|p: int| 0 <= p < order.len() ==> lo <= #[trigger] order[p] < hi
}

/// Merges two runs of records, each in order of importance, the first from
/// `lo..mid` and the second from `mid..hi`, into one run in that order.
fn merge(
    keys: &Vec<u32>,
    left: &Vec<usize>,
    right: &Vec<usize>,
    Ghost(lo): Ghost<int>,
    Ghost(mid): Ghost<int>,
    Ghost(hi): Ghost<int>,
) -> (out: Vec<usize>)
    requires
        0 <= lo <= mid <= hi <= keys.len(),
        within(indices_of(left@), lo, mid),
        within(indices_of(right@), mid, hi),
        is_importance_order(importances_of(keys@), indices_of(left@)),
        is_importance_order(importances_of(keys@), indices_of(right@)),
        left.len() + right.len() <= usize::MAX,
    ensures
        out.len() == left.len() + right.len(),
        within(indices_of(out@), lo, hi),
        is_importance_order(importances_of(keys@), indices_of(out@)),
{
    let ghost ks = importances_of(keys@);
    let ghost l = indices_of(left@);
    let ghost r = indices_of(right@);
    let mut out: Vec<usize> = Vec::new();
    let mut i: usize = 0;
    let mut j: usize = 0;
    while i < left.len() || j < right.len()
        invariant
            0 <= lo <= mid <= hi <= keys.len(),
            ks == importances_of(keys@),
            l == indices_of(left@),
            r == indices_of(right@),
            within(l, lo, mid),
            within(r, mid, hi),
            is_importance_order(ks, l),
            is_importance_order(ks, r),
            i <= left.len(),
            j <= right.len(),
            left.len() + right.len() <= usize::MAX,
            out.len() == i + j,
            within(indices_of(out@), lo, hi),
            is_importance_order(ks, indices_of(out@)),
            out.len() > 0 && i < left.len() ==> outranks(
                ks,
                out[out.len() - 1] as int,
                l[i as int],
            ),
            out.len() > 0 && j < right.len() ==> outranks(
                ks,
                out[out.len() - 1] as int,
                r[j as int],
            ),
        decreases left.len() - i + right.len() - j,
    {
        let ghost before = indices_of(out@);
        let take_left = if i == left.len() {
            false
        } else if j == right.len() {
            true
        } else {
            assert(lo <= l[i as int] < mid && mid <= r[j as int] < hi);
            keys[left[i]] >= keys[right[j]]
        };
        let x = if take_left { left[i] } else { right[j] };
        proof {
            assert(if take_left { x == l[i as int] } else { x == r[j as int] });
            assert(lo <= x < hi);
            assert forall|p: int| 0 <= p < before.len() implies outranks(
                ks,
                #[trigger] before[p],
                x as int,
            ) by {
                let last = before[before.len() - 1];
                assert(outranks(ks, last, x as int));
                if p < before.len() - 1 {
                    assert(outranks(ks, before[p], last));
                }
            }
            if take_left {
                if i + 1 < left.len() {
                    assert(outranks(ks, l[i as int], l[i + 1]));
                }
            } else {
                if j + 1 < right.len() {
                    assert(outranks(ks, r[j as int], r[j + 1]));
                }
            }
        }
        out.push(x);
        if take_left {
            i += 1;
        } else {
            j += 1;
        }
        proof {
            let after = indices_of(out@);
            assert(after =~= before.push(x as int));
            assert forall|p: int, q: int| 0 <= p < q < after.len() implies outranks(
                ks,
                #[trigger] after[p],
                #[trigger] after[q],
            ) by {
                if q < before.len() {
                    assert(outranks(ks, before[p], before[q]));
                } else {
                    assert(outranks(ks, before[p], x as int));
                }
            }
        }
    }
    out
}

/// The records `lo..hi` in order of importance, by merge sort.
fn sort_range(keys: &Vec<u32>, lo: usize, hi: usize) -> (out: Vec<usize>)
    requires
        lo <= hi <= keys.len(),
    ensures
        out.len() == hi - lo,
        within(indices_of(out@), lo as int, hi as int),
        is_importance_order(importances_of(keys@), indices_of(out@)),
    decreases hi - lo,
{
    if hi - lo == 0 {
        Vec::new()
    } else if hi - lo == 1 {
        let mut out: Vec<usize> = Vec::new();
        out.push(lo);
        out
    } else {
        let mid = lo + (hi - lo) / 2;
        let left = sort_range(keys, lo, mid);
        let right = sort_range(keys, mid, hi);
        merge(keys, &left, &right, Ghost(lo as int), Ghost(mid as int), Ghost(hi as int))
    }
}

/// Orders of importance leave no record out and take none twice.
pub proof fn lemma_importance_order_is_permutation(keys: Seq<int>, order: Seq<int>)
    requires
        order.len() == keys.len(),
        within(order, 0, keys.len() as int),
        is_importance_order(keys, order),
    ensures
        is_permutation(order, keys.len() as int),
{
    assert forall|p: int, q: int| 0 <= p < q < order.len() implies #[trigger] order[p]
        != #[trigger] order[q] by {
        assert(outranks(keys, order[p], order[q]));
    }
    lemma_injection_is_permutation(order, keys.len() as int);
}

/// `order` is the writing order of the records with these keys: every record
/// once, most important first, equals in the order they came in.
pub open spec fn is_writing_order(keys: Seq<int>, order: Seq<int>) -> bool {
    &&& order.len() == keys.len()
    &&& within(order, 0, keys.len() as int)
    &&& is_importance_order(keys, order)
}

proof fn lemma_orders_agree_below(keys: Seq<int>, first: Seq<int>, second: Seq<int>, p: int)
    requires
        is_writing_order(keys, first),
        is_writing_order(keys, second),
        0 <= p <= keys.len(),
    ensures
        forall|k: int| 0 <= k < p ==> first[k] == second[k],
    decreases p,
{
    if p > 0 {
        lemma_orders_agree_below(keys, first, second, p - 1);
        lemma_importance_order_is_permutation(keys, first);
        lemma_importance_order_is_permutation(keys, second);
        let x = first[p - 1];
        let y = second[p - 1];
        assert(0 <= x < keys.len() && 0 <= y < keys.len());
        assert(second.contains(x));
        assert(first.contains(y));
        let q = choose|q: int| 0 <= q < second.len() && second[q] == x;
        let r = choose|r: int| 0 <= r < first.len() && first[r] == y;
        if q < p - 1 {
            assert(first[q] == second[q]);
            assert(outranks(keys, first[q], first[p - 1]));
        }
        if r < p - 1 {
            assert(second[r] == first[r]);
            assert(outranks(keys, second[r], second[p - 1]));
        }
        if q > p - 1 {
            assert(outranks(keys, second[p - 1], second[q]));
        }
        if r > p - 1 {
            assert(outranks(keys, first[p - 1], first[r]));
        }
    }
}

/// There is one writing order only.
pub proof fn lemma_writing_order_unique(keys: Seq<int>, first: Seq<int>, second: Seq<int>)
    requires
        is_writing_order(keys, first),
        is_writing_order(keys, second),
    ensures
        first == second,
{
    lemma_orders_agree_below(keys, first, second, keys.len() as int);
    assert(first =~= second);
}

/// The writing order of the records with these keys.
pub open spec fn writing_order(keys: Seq<int>) -> Seq<int> {
    choose|order: Seq<int>| is_writing_order(keys, order)
}

/// An order that is a writing order is the writing order.
pub proof fn lemma_writing_order_is(keys: Seq<int>, order: Seq<int>)
    requires
        is_writing_order(keys, order),
    ensures
        writing_order(keys) == order,
{
    lemma_writing_order_unique(keys, order, writing_order(keys));
}

/// The records `0..keys.len()` by descending importance key, records of equal
/// importance in the order they came in.
pub fn importance_order(keys: &Vec<u32>) -> (order: Vec<usize>)
    ensures
        order.len() == keys.len(),
        is_permutation(indices_of(order@), keys.len() as int),
        is_importance_order(importances_of(keys@), indices_of(order@)),
        indices_of(order@) == writing_order(importances_of(keys@)),
{
    let order = sort_range(keys, 0, keys.len());
    proof {
        let ks = importances_of(keys@);
        let found = indices_of(order@);
        lemma_importance_order_is_permutation(ks, found);
        lemma_writing_order_is(ks, found);
    }
    order
}

} // verus!
