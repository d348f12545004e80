//! View-dependent draw order: quantization of per-record integer depths into
//! buckets, and the back-to-front order that alpha blending needs.

use vstd::prelude::*;
use vstd::arithmetic::div_mod::{
    lemma_div_is_ordered, lemma_div_multiples_vanish, lemma_fundamental_div_mod,
};
use crate::counting::{
    ascends, counting_sort, is_ascending_stable, keys_of, lemma_rank_in_bounds, rank,
};
use crate::permutation::{indices_of_u32, is_permutation, lemma_injection_is_permutation};

verus! {

/// The depths of a vector, as mathematical integers.
pub open spec fn depths_of(depths: Seq<i32>) -> Seq<int> {
    depths.map_values(|d: i32| d as int)
}

/// The smallest of the first `n` depths (`n >= 1`).
pub open spec fn min_depth(depths: Seq<int>, n: int) -> int
    decreases n,
{
    if n <= 1 {
        depths[0]
    } else {
        let m = min_depth(depths, n - 1);
        if depths[n - 1] < m { depths[n - 1] } else { m }
    }
}

/// The largest of the first `n` depths (`n >= 1`).
pub open spec fn max_depth(depths: Seq<int>, n: int) -> int
    decreases n,
{
    if n <= 1 {
        depths[0]
    } else {
        let m = max_depth(depths, n - 1);
        if depths[n - 1] > m { depths[n - 1] } else { m }
    }
}

/// The bucket of a depth within the range `min..=max`: the range is mapped
/// linearly onto `0..=65535` and the result floored and clamped. A range of a
/// single depth maps to bucket 0.
pub open spec fn bucket_of(depth: int, min: int, max: int) -> int {
    if max <= min {
        0
    } else {
        let scaled = ((depth - min) * 65535) / (max - min);
        if scaled < 0 { 0 } else if scaled > 65535 { 65535 } else { scaled }
    }
}

/// The bucket of every depth of a store, over the range of all its depths.
pub open spec fn buckets_of(depths: Seq<int>) -> Seq<int> {
    Seq::new(
        depths.len(),
        |i: int|
            bucket_of(
                depths[i],
                min_depth(depths, depths.len() as int),
                max_depth(depths, depths.len() as int),
            ),
    )
}

/// Record `a` is drawn before record `b` in back-to-front order: the farther
/// bucket first, and of two records in one bucket the later one first.
pub open spec fn descends(keys: Seq<int>, a: int, b: int) -> bool {
    keys[a] > keys[b] || (keys[a] == keys[b] && a > b)
}

/// `order` holds the records farthest bucket first.
pub open spec fn is_back_to_front(keys: Seq<int>, order: Seq<int>) -> bool {
    forall|p: int, q: int|
        0 <= p < q < order.len() ==> descends(keys, #[trigger] order[p], #[trigger] order[q])
}

/// Every depth lies between the smallest and the largest.
pub proof fn lemma_min_max_bound(depths: Seq<int>, n: int, i: int)
    requires
        0 <= i < n <= depths.len(),
    ensures
        min_depth(depths, n) <= depths[i] <= max_depth(depths, n),
    decreases n,
{
    if i < n - 1 {
        lemma_min_max_bound(depths, n - 1, i);
    }
}

/// Within the range, the bucket is the floored linear map itself: the clamp
/// does not bite.
pub proof fn lemma_bucket_in_range(depth: int, min: int, max: int)
    requires
        min <= depth <= max,
    ensures
        0 <= bucket_of(depth, min, max) <= 65535,
        min < max ==> bucket_of(depth, min, max) == ((depth - min) * 65535) / (max - min),
{
    if min < max {
        let span = max - min;
        lemma_div_is_ordered(0, (depth - min) * 65535, span);
        lemma_div_is_ordered((depth - min) * 65535, span * 65535, span);
        lemma_div_multiples_vanish(65535, span);
        assert(span * 65535 == 65535 * span);
        assert(0int / span == 0) by (nonlinear_arith)
            requires
                span > 0,
        ;
    }
}

/// A farther depth never falls into a nearer bucket.
pub proof fn lemma_bucket_monotone(d1: int, d2: int, min: int, max: int)
    requires
        min <= d1 <= d2 <= max,
    ensures
        bucket_of(d1, min, max) <= bucket_of(d2, min, max),
{
    lemma_bucket_in_range(d1, min, max);
    lemma_bucket_in_range(d2, min, max);
    if min < max {
        lemma_div_is_ordered((d1 - min) * 65535, (d2 - min) * 65535, max - min);
    }
}

/// Where the depths span no more than the buckets, distinct depths fall into
/// distinct buckets.
pub proof fn lemma_bucket_strict(d1: int, d2: int, min: int, max: int)
    requires
        min <= d1 < d2 <= max,
        max - min <= 65535,
    ensures
        bucket_of(d1, min, max) < bucket_of(d2, min, max),
{
    lemma_bucket_in_range(d1, min, max);
    lemma_bucket_in_range(d2, min, max);
    let span = max - min;
    let x1 = (d1 - min) * 65535;
    let x2 = (d2 - min) * 65535;
    lemma_fundamental_div_mod(x1, span);
    lemma_fundamental_div_mod(x2, span);
    let q1 = x1 / span;
    let q2 = x2 / span;
    assert(x2 >= x1 + span);
    assert(q1 < q2) by (nonlinear_arith)
        requires
            span > 0,
            x1 == span * q1 + x1 % span,
            x2 == span * q2 + x2 % span,
            0 <= x1 % span < span,
            0 <= x2 % span < span,
            x2 >= x1 + span,
    ;
}

/// Maps every depth to its bucket over the range of all depths.
pub fn quantize(depths: &Vec<i32>) -> (buckets: Vec<u16>)
    ensures
        buckets.len() == depths.len(),
        keys_of(buckets@) == buckets_of(depths_of(depths@)),
{
    let n = depths.len();
    let ghost ds = depths_of(depths@);
    let mut buckets: Vec<u16> = Vec::new();
    if n == 0 {
        assert(keys_of(buckets@) =~= buckets_of(ds));
        return buckets;
    }
    let mut min: i32 = depths[0];
    let mut max: i32 = depths[0];
    let mut i: usize = 1;
    while i < n
        invariant
            1 <= i <= n,
            n == depths.len(),
            ds == depths_of(depths@),
            min == min_depth(ds, i as int),
            max == max_depth(ds, i as int),
        decreases n - i,
    {
        let d = depths[i];
        if d < min {
            min = d;
        }
        if d > max {
            max = d;
        }
        i += 1;
    }
    let span: u64 = (max as i64 - min as i64) as u64;
    proof {
        lemma_min_max_bound(ds, n as int, 0);
    }
    let mut i: usize = 0;
    while i < n
        invariant
            i <= n,
            n == depths.len(),
            ds == depths_of(depths@),
            min == min_depth(ds, n as int),
            max == max_depth(ds, n as int),
            span == max - min,
            buckets.len() == i,
            forall|k: int|
                0 <= k < i ==> #[trigger] buckets[k] == bucket_of(ds[k], min as int, max as int),
        decreases n - i,
    {
        let d = depths[i];
        proof {
            lemma_min_max_bound(ds, n as int, i as int);
            lemma_bucket_in_range(d as int, min as int, max as int);
        }
        let bucket: u16 = if span == 0 {
            0
        } else {
            let offset: u64 = (d as i64 - min as i64) as u64;
            ((offset * 65535) / span) as u16
        };
        buckets.push(bucket);
        i += 1;
    }
    assert(keys_of(buckets@) =~= buckets_of(ds));
    buckets
}

/// The records in the reverse of the given order.
pub fn reversed(order: &Vec<u32>) -> (out: Vec<u32>)
    ensures
        out@ == order@.reverse(),
{
    let n = order.len();
    let mut out: Vec<u32> = Vec::new();
    let mut i: usize = 0;
    while i < n
        invariant
            i <= n,
            n == order.len(),
            out.len() == i,
            forall|k: int| 0 <= k < i ==> #[trigger] out[k] == order[n - 1 - k],
        decreases n - i,
    {
        out.push(order[n - 1 - i]);
        i += 1;
    }
    assert(out@ =~= order@.reverse());
    out
}

/// The reverse of the ascending, stable permutation is the back-to-front
/// permutation.
pub proof fn lemma_reverse_is_back_to_front(keys: Seq<int>, ascending: Seq<int>)
    requires
        is_permutation(ascending, keys.len() as int),
        is_ascending_stable(keys, ascending),
    ensures
        is_permutation(ascending.reverse(), keys.len() as int),
        is_back_to_front(keys, ascending.reverse()),
{
    let n = keys.len() as int;
    let r = ascending.reverse();
    assert forall|p: int, q: int| 0 <= p < q < r.len() implies descends(
        keys,
        #[trigger] r[p],
        #[trigger] r[q],
    ) by {
        assert(ascends(keys, ascending[n - 1 - q], ascending[n - 1 - p]));
    }
    assert forall|p: int| 0 <= p < r.len() implies 0 <= #[trigger] r[p] < n by {
        assert(0 <= ascending[n - 1 - p] < n);
    }
    assert forall|p: int, q: int| 0 <= p < q < r.len() implies #[trigger] r[p]
        != #[trigger] r[q] by {
        assert(ascending[n - 1 - q] != ascending[n - 1 - p]);
    }
    lemma_injection_is_permutation(r, n);
}

/// The draw order of a store for the given per-record depths: every record
/// once, farthest bucket first; within a bucket the later record first.
///
/// Record `i` stands at position `n - 1 - rank`, its rank taken among the
/// buckets in ascending, stable order.
pub fn back_to_front(depths: &Vec<i32>) -> (order: Vec<u32>)
    requires
        depths.len() <= u32::MAX,
    ensures
        order.len() == depths.len(),
        forall|i: int|
            0 <= i < depths.len() ==> order@[depths.len() - 1 - #[trigger] rank(
                buckets_of(depths_of(depths@)),
                i,
            )] == i,
        is_permutation(indices_of_u32(order@), depths.len() as int),
        is_back_to_front(buckets_of(depths_of(depths@)), indices_of_u32(order@)),
{
    let buckets = quantize(depths);
    let ascending = counting_sort(&buckets);
    let order = reversed(&ascending);
    proof {
        let keys = buckets_of(depths_of(depths@));
        lemma_reverse_is_back_to_front(keys, indices_of_u32(ascending@));
        assert(indices_of_u32(order@) =~= indices_of_u32(ascending@).reverse());
        assert forall|i: int| 0 <= i < depths.len() implies order@[depths.len() - 1
            - #[trigger] rank(keys, i)] == i by {
            lemma_rank_in_bounds(keys, i);
        }
    }
    order
}

/// Looked up in back-to-front order, the buckets never increase.
pub proof fn lemma_buckets_never_increase(keys: Seq<int>, order: Seq<int>)
    requires
        is_back_to_front(keys, order),
    ensures
        forall|p: int, q: int|
            0 <= p <= q < order.len() ==> keys[#[trigger] order[p]] >= keys[#[trigger] order[q]],
{
    assert forall|p: int, q: int| 0 <= p <= q < order.len() implies keys[#[trigger] order[p]]
        >= keys[#[trigger] order[q]] by {
        if p < q {
            assert(descends(keys, order[p], order[q]));
        }
    }
}

/// Within every bucket, an earlier record is never farther than a later one.
pub open spec fn buckets_keep_depth_order(depths: Seq<int>) -> bool {
    forall|i: int, j: int|
        0 <= i < j < depths.len() && #[trigger] buckets_of(depths)[i] == #[trigger] buckets_of(
            depths,
        )[j] ==> depths[i] <= depths[j]
}

/// Looked up in back-to-front order, the depths never increase, provided that
/// no bucket holds an earlier record that is farther than a later one. (Two
/// such records share a bucket and are drawn later-first, so without the
/// proviso the claim fails.)
pub proof fn lemma_depths_never_increase(depths: Seq<int>, order: Seq<int>)
    requires
        is_permutation(order, depths.len() as int),
        is_back_to_front(buckets_of(depths), order),
        buckets_keep_depth_order(depths),
    ensures
        forall|p: int, q: int|
            0 <= p <= q < order.len() ==> depths[#[trigger] order[p]]
                >= depths[#[trigger] order[q]],
{
    let n = depths.len() as int;
    let keys = buckets_of(depths);
    let min = min_depth(depths, n);
    let max = max_depth(depths, n);
    assert forall|p: int, q: int| 0 <= p <= q < order.len() implies depths[#[trigger] order[p]]
        >= depths[#[trigger] order[q]] by {
        if p < q {
            let a = order[p];
            let b = order[q];
            assert(descends(keys, a, b));
            lemma_min_max_bound(depths, n, a);
            lemma_min_max_bound(depths, n, b);
            if keys[a] > keys[b] {
                if depths[a] < depths[b] {
                    lemma_bucket_monotone(depths[a], depths[b], min, max);
                }
            } else {
                assert(buckets_of(depths)[b] == buckets_of(depths)[a]);
            }
        }
    }
}

/// Depths that span no more than 65535 keep their order within every bucket:
/// each bucket then holds a single depth.
pub proof fn lemma_narrow_range_keeps_depth_order(depths: Seq<int>)
    requires
        depths.len() > 0 ==> max_depth(depths, depths.len() as int) - min_depth(
            depths,
            depths.len() as int,
        ) <= 65535,
    ensures
        buckets_keep_depth_order(depths),
{
    let n = depths.len() as int;
    let min = min_depth(depths, n);
    let max = max_depth(depths, n);
    assert forall|i: int, j: int|
        0 <= i < j < depths.len() && #[trigger] buckets_of(depths)[i] == #[trigger] buckets_of(
            depths,
        )[j] implies depths[i] <= depths[j] by {
        lemma_min_max_bound(depths, n, i);
        lemma_min_max_bound(depths, n, j);
        if depths[i] > depths[j] {
            lemma_bucket_strict(depths[j], depths[i], min, max);
        }
    }
}

} // verus!
