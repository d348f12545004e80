//! Stable counting sort of record indices by a 16-bit bucket key.

use vstd::prelude::*;
use crate::permutation::{
    indices_of_u32, is_injection, is_permutation, lemma_injection_is_permutation,
};

verus! {

/// Number of distinct bucket keys.
pub const BUCKETS: usize = 65536;

/// How many of the first `n` keys are smaller than `b`.
pub open spec fn count_less(keys: Seq<int>, n: int, b: int) -> int
    decreases n,
{
    if n <= 0 {
        0
    } else {
        count_less(keys, n - 1, b) + if keys[n - 1] < b { 1int } else { 0int }
    }
}

/// How many of the first `n` keys equal `b`.
pub open spec fn count_equal(keys: Seq<int>, n: int, b: int) -> int
    decreases n,
{
    if n <= 0 {
        0
    } else {
        count_equal(keys, n - 1, b) + if keys[n - 1] == b { 1int } else { 0int }
    }
}

/// The place of record `i` once all records stand in ascending key order with
/// equal keys in the order they came in: every record with a smaller key comes
/// first, and so does every earlier record with the same key.
pub open spec fn rank(keys: Seq<int>, i: int) -> int {
    count_less(keys, keys.len() as int, keys[i]) + count_equal(keys, i, keys[i])
}

/// Record `a` stands before record `b` in ascending, stable order.
pub open spec fn ascends(keys: Seq<int>, a: int, b: int) -> bool {
    keys[a] < keys[b] || (keys[a] == keys[b] && a < b)
}

/// `order` holds the records in ascending key order, records with equal keys
/// in the relative order they came in.
pub open spec fn is_ascending_stable(keys: Seq<int>, order: Seq<int>) -> bool {
    forall|p: int, q: int|
        0 <= p < q < order.len() ==> ascends(keys, #[trigger] order[p], #[trigger] order[q])
}

/// The bucket keys of a vector, as mathematical integers.
pub open spec fn keys_of(buckets: Seq<u16>) -> Seq<int> {
    buckets.map_values(|b: u16| b as int)
}

/// Counts are not negative, and the keys below `b + 1` are those below `b`
/// and those equal to `b`: no more than `n` in all.
pub proof fn lemma_counts_bounded(keys: Seq<int>, n: int, b: int)
    requires
        0 <= n,
    ensures
        0 <= count_less(keys, n, b),
        0 <= count_equal(keys, n, b),
        count_less(keys, n, b) + count_equal(keys, n, b) == count_less(keys, n, b + 1),
        count_less(keys, n, b + 1) <= n,
    decreases n,
{
    if n > 0 {
        lemma_counts_bounded(keys, n - 1, b);
    }
}

/// The larger the bound, the more keys lie below it.
pub proof fn lemma_count_less_monotone(keys: Seq<int>, n: int, b: int, c: int)
    requires
        0 <= n,
        b <= c,
    ensures
        count_less(keys, n, b) <= count_less(keys, n, c),
    decreases n,
{
    if n > 0 {
        lemma_count_less_monotone(keys, n - 1, b, c);
    }
}

/// A longer prefix holds no fewer keys equal to `b`, and one more at least
/// if it takes in a key equal to `b`.
pub proof fn lemma_count_equal_grows(keys: Seq<int>, i: int, j: int, b: int)
    requires
        0 <= i <= j,
    ensures
        count_equal(keys, i, b) <= count_equal(keys, j, b),
        i < j && keys[i] == b ==> count_equal(keys, i, b) < count_equal(keys, j, b),
    decreases j,
{
    if i < j {
        lemma_count_equal_grows(keys, i, j - 1, b);
        lemma_counts_bounded(keys, j - 1, b);
    }
}

/// A record's rank is a position of the output.
pub proof fn lemma_rank_in_bounds(keys: Seq<int>, i: int)
    requires
        0 <= i < keys.len(),
    ensures
        0 <= rank(keys, i) < keys.len(),
{
    let n = keys.len() as int;
    lemma_counts_bounded(keys, n, keys[i]);
    lemma_counts_bounded(keys, i, keys[i]);
    lemma_count_equal_grows(keys, i, n, keys[i]);
}

/// Ranks follow the ascending, stable order of the records.
pub proof fn lemma_rank_ascends(keys: Seq<int>, a: int, b: int)
    requires
        0 <= a < keys.len(),
        0 <= b < keys.len(),
        ascends(keys, a, b),
    ensures
        rank(keys, a) < rank(keys, b),
{
    let n = keys.len() as int;
    if keys[a] < keys[b] {
        lemma_count_equal_grows(keys, a, n, keys[a]);
        lemma_counts_bounded(keys, n, keys[a]);
        lemma_count_less_monotone(keys, n, keys[a] + 1, keys[b]);
        lemma_counts_bounded(keys, b, keys[b]);
    } else {
        lemma_count_equal_grows(keys, a, b, keys[a]);
    }
}

/// The sequence of all ranks, record by record.
pub open spec fn ranks(keys: Seq<int>) -> Seq<int> {
    Seq::new(keys.len(), |i: int| rank(keys, i))
}

/// No two records share a rank, and every position is some record's rank.
pub proof fn lemma_ranks_permute(keys: Seq<int>)
    ensures
        is_permutation(ranks(keys), keys.len() as int),
{
    let r = ranks(keys);
    let n = keys.len() as int;
    assert forall|p: int| 0 <= p < r.len() implies 0 <= #[trigger] r[p] < n by {
        lemma_rank_in_bounds(keys, p);
    }
    assert forall|p: int, q: int| 0 <= p < q < r.len() implies #[trigger] r[p]
        != #[trigger] r[q] by {
        if ascends(keys, p, q) {
            lemma_rank_ascends(keys, p, q);
        } else {
            lemma_rank_ascends(keys, q, p);
        }
    }
    lemma_injection_is_permutation(r, n);
}

/// An output that puts every record at its rank is the ascending, stable
/// permutation of the records.
pub proof fn lemma_ranked_order_is_sorted(keys: Seq<int>, order: Seq<int>)
    requires
        order.len() == keys.len(),
        forall|i: int| 0 <= i < keys.len() ==> order[#[trigger] rank(keys, i)] == i,
    ensures
        is_permutation(order, keys.len() as int),
        is_ascending_stable(keys, order),
{
    let n = keys.len() as int;
    let r = ranks(keys);
    lemma_ranks_permute(keys);
    // every position is the rank of the record that stands there
    assert forall|p: int| 0 <= p < n implies 0 <= #[trigger] order[p] < n && rank(keys, order[p])
        == p by {
        assert(r.contains(p));
        let i = choose|i: int| 0 <= i < r.len() && r[i] == p;
        assert(rank(keys, i) == p);
    }
    assert forall|p: int, q: int| 0 <= p < q < n implies ascends(
        keys,
        #[trigger] order[p],
        #[trigger] order[q],
    ) by {
        let a = order[p];
        let b = order[q];
        if !ascends(keys, a, b) {
            if a != b {
                lemma_rank_ascends(keys, b, a);
            }
        }
    }
    assert(is_injection(order, n));
    lemma_injection_is_permutation(order, n);
}

/// Where no key is negative, none lies below zero.
pub proof fn lemma_none_below_zero(keys: Seq<int>, n: int)
    requires
        0 <= n <= keys.len(),
        forall|k: int| 0 <= k < keys.len() ==> 0 <= keys[k],
    ensures
        count_less(keys, n, 0) == 0,
    decreases n,
{
    if n > 0 {
        lemma_none_below_zero(keys, n - 1);
    }
}

/// Orders the records `0..buckets.len()` by ascending bucket, records of one
/// bucket in the order they came in, in time linear in the number of records.
pub fn counting_sort(buckets: &Vec<u16>) -> (order: Vec<u32>)
    requires
        buckets.len() <= u32::MAX,
    ensures
        order.len() == buckets.len(),
        forall|i: int|
            0 <= i < buckets.len() ==> order@[#[trigger] rank(keys_of(buckets@), i)] == i,
        is_permutation(indices_of_u32(order@), buckets.len() as int),
        is_ascending_stable(keys_of(buckets@), indices_of_u32(order@)),
{
    let n = buckets.len();
    let ghost keys = keys_of(buckets@);

    // occupancy of each bucket
    let mut counts: Vec<usize> = vec![0usize; BUCKETS];
    let mut i: usize = 0;
    while i < n
        invariant
            i <= n,
            n == buckets.len(),
            keys == keys_of(buckets@),
            counts.len() == BUCKETS,
            forall|b: int|
                0 <= b < BUCKETS ==> #[trigger] counts[b] == count_equal(keys, i as int, b),
        decreases n - i,
    {
        let b = buckets[i] as usize;
        proof {
            lemma_counts_bounded(keys, i as int, b as int);
        }
        counts.set(b, counts[b] + 1);
        i += 1;
    }

    // first free slot of each bucket
    let mut starts: Vec<usize> = vec![0usize; BUCKETS];
    proof {
        lemma_none_below_zero(keys, n as int);
    }
    let mut b: usize = 1;
    while b < BUCKETS
        invariant
            1 <= b <= BUCKETS,
            n == buckets.len(),
            keys == keys_of(buckets@),
            counts.len() == BUCKETS,
            starts.len() == BUCKETS,
            forall|c: int|
                0 <= c < BUCKETS ==> #[trigger] counts[c] == count_equal(keys, n as int, c),
            forall|c: int| 0 <= c < b ==> #[trigger] starts[c] == count_less(keys, n as int, c),
        decreases BUCKETS - b,
    {
        proof {
            lemma_counts_bounded(keys, n as int, b - 1);
        }
        starts.set(b, starts[b - 1] + counts[b - 1]);
        b += 1;
    }

    // scatter each record into its bucket's next free slot
    let mut order: Vec<u32> = vec![0u32; n];
    let mut i: usize = 0;
    while i < n
        invariant
            i <= n,
            n == buckets.len(),
            n <= u32::MAX,
            keys == keys_of(buckets@),
            starts.len() == BUCKETS,
            order.len() == n,
            forall|c: int|
                0 <= c < BUCKETS ==> #[trigger] starts[c] == count_less(keys, n as int, c)
                    + count_equal(keys, i as int, c),
            forall|k: int| 0 <= k < i ==> order@[#[trigger] rank(keys, k)] == k,
        decreases n - i,
    {
        let b = buckets[i] as usize;
        let slot = starts[b];
        proof {
            assert(slot == rank(keys, i as int));
            lemma_rank_in_bounds(keys, i as int);
            assert forall|k: int| 0 <= k < i implies 0 <= #[trigger] rank(keys, k) < n && rank(
                keys,
                k,
            ) != slot by {
                lemma_rank_in_bounds(keys, k);
                if ascends(keys, k, i as int) {
                    lemma_rank_ascends(keys, k, i as int);
                } else {
                    lemma_rank_ascends(keys, i as int, k);
                }
            }
        }
        order.set(slot, i as u32);
        starts.set(b, slot + 1);
        i += 1;
    }

    proof {
        let out = indices_of_u32(order@);
        assert forall|k: int| 0 <= k < keys.len() implies out[#[trigger] rank(keys, k)] == k by {
            lemma_rank_in_bounds(keys, k);
        }
        lemma_ranked_order_is_sorted(keys, out);
    }
    order
}

} // verus!
