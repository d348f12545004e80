//! The depth sorter: when a view that has arrived calls for a new draw order,
//! and what is published once the order is computed.
//!
//! A view direction is held as the bit patterns of its three components.
//! Whether two directions are alike is for the caller to say: the sorter
//! hands out the direction it holds and takes the verdict back.

use std::sync::Arc;
use vstd::prelude::*;
use crate::counting::rank;
use crate::depth::{back_to_front, buckets_of, depths_of, is_back_to_front};
use crate::permutation::{indices_of_u32, is_permutation};
use crate::scene::Scene;

verus! {

/// What the sorter is doing.
#[derive(Clone, Copy, Debug, PartialEq, Eq, Structural)]
pub enum SorterState {
    /// No view calls for a new order.
    Idle,
    /// A view has arrived whose order is not yet published.
    Sorting,
}

/// The sorter's state.
#[derive(Clone, Copy, Debug)]
pub struct Sorter {
    /// What the sorter is doing.
    pub state: SorterState,
    /// The view direction of the last order that was asked for or published.
    pub cached: Option<[u32; 3]>,
    /// The view direction whose order is being computed.
    pub pending: [u32; 3],
}

impl Sorter {
    /// The sorter after a view of direction `direction` has arrived for a
    /// store of `splat_count` records, and whether a new order is due.
    /// `unchanged` says that `direction` is, within the tolerance, the cached
    /// one; without a cached direction it is not looked at.
    ///
    /// A new order is due unless the store is empty or the direction is
    /// unchanged; otherwise the sorter stays as it is.
    pub open spec fn received(self, splat_count: nat, direction: [u32; 3], unchanged: bool) -> (
        Sorter,
        bool,
    ) {
        if splat_count == 0 || (self.cached is Some && unchanged) {
            (self, false)
        } else {
            (
                Sorter {
                    state: SorterState::Sorting,
                    cached: if self.cached is Some {
                        self.cached
                    } else {
                        Some(direction)
                    },
                    pending: direction,
                },
                true,
            )
        }
    }

    /// The sorter after the pending order was published: idle, the pending
    /// direction cached.
    pub open spec fn published(self) -> Sorter {
        Sorter { state: SorterState::Idle, cached: Some(self.pending), pending: self.pending }
    }

    /// An idle sorter that has seen no view: nothing cached, and a pending
    /// direction of three zero words, which the first view replaces.
    pub fn new() -> (sorter: Sorter)
        ensures
            sorter.state == SorterState::Idle,
            sorter.cached is None,
            sorter.pending@ == seq![0u32, 0u32, 0u32],
    {
        Sorter { state: SorterState::Idle, cached: None, pending: [0u32, 0u32, 0u32] }
    }

    /// Takes in a view that has arrived; says whether a new order is due.
    pub fn receive(&mut self, splat_count: usize, direction: [u32; 3], unchanged: bool) -> (due:
        bool)
        ensures
            (*final(self), due) == old(self).received(splat_count as nat, direction, unchanged),
    {
        if splat_count == 0 {
            return false;
        }
        match self.cached {
            Some(_) => {
                if unchanged {
                    return false;
                }
            },
            None => {
                self.cached = Some(direction);
            },
        }
        self.state = SorterState::Sorting;
        self.pending = direction;
        true
    }
}

/// While the cached direction is unchanged, a view that arrives asks for no
/// new order and leaves the sorter as it is.
pub proof fn lemma_unchanged_view_is_skipped(sorter: Sorter, splat_count: nat, direction: [u32; 3])
    requires
        sorter.cached is Some,
    ensures
        sorter.received(splat_count, direction, true) == (sorter, false),
{
}

/// Once an order is published, the same view arriving again, found unchanged,
/// asks for no new order.
pub proof fn lemma_repeated_view_is_skipped(
    sorter: Sorter,
    splat_count: nat,
    direction: [u32; 3],
    unchanged: bool,
)
    requires
        sorter.received(splat_count, direction, unchanged).1,
    ensures
        ({
            let settled = sorter.received(splat_count, direction, unchanged).0.published();
            &&& settled.cached == Some(direction)
            &&& settled.received(splat_count, direction, true) == (settled, false)
        }),
{
}

/// For a store without records no view asks for an order.
pub proof fn lemma_empty_store_is_never_sorted(
    sorter: Sorter,
    direction: [u32; 3],
    unchanged: bool,
)
    ensures
        sorter.received(0, direction, unchanged) == (sorter, false),
{
}

impl Scene {
    /// Whether a sorter in this state publishes an order for `depths`, which
    /// are to be one depth per record of a store of `splat_count` records.
    pub open spec fn sorts(sorter: Sorter, splat_count: nat, depths: Seq<i32>) -> bool {
        &&& sorter.state == SorterState::Sorting
        &&& 0 < splat_count <= u32::MAX
        &&& depths.len() == splat_count
    }

    /// `order` is the draw order for `depths`: every record once, farthest
    /// bucket first, within a bucket the later record first.
    pub open spec fn is_draw_order(depths: Seq<i32>, order: Seq<u32>) -> bool {
        &&& order.len() == depths.len()
        &&& is_permutation(indices_of_u32(order), depths.len() as int)
        &&& is_back_to_front(buckets_of(depths_of(depths)), indices_of_u32(order))
        &&& forall|i: int|
            0 <= i < depths.len() ==> order[depths.len() - 1 - #[trigger] rank(
                buckets_of(depths_of(depths)),
                i,
            )] == i
    }

    /// Computes the draw order that a sorting sorter is waiting for, from the
    /// depth of every record under the pending view, and settles the sorter.
    /// A sorter that is not sorting, a store without records or with more
    /// than `u32::MAX` of them, or depths that are not one per record give no
    /// order and leave the sorter as it is.
    pub fn sort2(scene: &Scene, sorter: &mut Sorter, depths: &Vec<i32>) -> (order: Option<Vec<u32>>)
        ensures
            match order {
                Some(o) => {
                    &&& Scene::sorts(*old(sorter), scene@.splat_count, depths@)
                    &&& Scene::is_draw_order(depths@, o@)
                    &&& *final(sorter) == old(sorter).published()
                },
                None => {
                    &&& !Scene::sorts(*old(sorter), scene@.splat_count, depths@)
                    &&& *final(sorter) == *old(sorter)
                },
            },
    {
        let count = scene.splat_count();
        let sorting = match sorter.state {
            SorterState::Sorting => true,
            SorterState::Idle => false,
        };
        if !sorting || count == 0 || count > 0xffff_ffff || depths.len() != count {
            return None;
        }
        let order = back_to_front(depths);
        sorter.state = SorterState::Idle;
        sorter.cached = Some(sorter.pending);
        Some(order)
    }

    /// [`Scene::sort2`] for a shared store.
    pub fn sort(scene: &Arc<Scene>, sorter: &mut Sorter, depths: &Vec<i32>) -> (order: Option<
        Vec<u32>,
    >)
        ensures
            match order {
                Some(o) => {
                    &&& Scene::sorts(*old(sorter), scene@.splat_count, depths@)
                    &&& Scene::is_draw_order(depths@, o@)
                    &&& *final(sorter) == old(sorter).published()
                },
                None => {
                    &&& !Scene::sorts(*old(sorter), scene@.splat_count, depths@)
                    &&& *final(sorter) == *old(sorter)
                },
            },
    {
        Scene::sort2(&**scene, sorter, depths)
    }
}

} // verus!
