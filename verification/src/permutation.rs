//! Sequences of record indices, and what it means for one to visit every
//! record exactly once.

use vstd::prelude::*;
use vstd::relations::injective_on;
use vstd::set_lib::*;

verus! {

/// `order` lists indices below `n`, none of them twice.
pub open spec fn is_injection(order: Seq<int>, n: int) -> bool {
    &&& forall|p: int| 0 <= p < order.len() ==> 0 <= #[trigger] order[p] < n
    &&& forall|p: int, q: int|
        0 <= p < q < order.len() ==> #[trigger] order[p] != #[trigger] order[q]
}

/// `order` lists each of the indices `0..n` exactly once.
pub open spec fn is_permutation(order: Seq<int>, n: int) -> bool {
    &&& order.len() == n
    &&& is_injection(order, n)
    &&& forall|i: int| 0 <= i < n ==> #[trigger] order.contains(i)
}

/// The indices held by a vector of `usize`, as mathematical integers.
pub open spec fn indices_of(v: Seq<usize>) -> Seq<int> {
    v.map_values(|x: usize| x as int)
}

/// The indices held by a vector of `u32`, as mathematical integers.
pub open spec fn indices_of_u32(v: Seq<u32>) -> Seq<int> {
    v.map_values(|x: u32| x as int)
}

/// Pigeonhole: `n` distinct indices below `n` leave none of `0..n` out.
pub proof fn lemma_injection_is_permutation(order: Seq<int>, n: int)
    requires
        order.len() == n,
        is_injection(order, n),
    ensures
        is_permutation(order, n),
{
    let positions = set_int_range(0, n);
    let f = |p: int| order[p];
    let image = positions.map(f);
    lemma_int_range(0, n);
    assert(injective_on(f, positions));
    lemma_map_size(positions, image, f);
    assert(image.subset_of(positions)) by {
        assert forall|i: int| image.contains(i) implies positions.contains(i) by {
            let p = choose|p: int| positions.contains(p) && i == f(p);
            assert(0 <= order[p] < n);
        }
    }
    lemma_subset_equality(image, positions);
    assert forall|i: int| 0 <= i < n implies #[trigger] order.contains(i) by {
        assert(positions.contains(i));
        assert(image.contains(i));
        let p = choose|p: int| positions.contains(p) && i == f(p);
        assert(0 <= p < n && order[p] == i);
    }
}

} // verus!
