//! The registry of dropped items: free-floating units of cargo with a
//! continuous position, and the proximity queries the machines make
//! against it.

use vstd::prelude::*;
use crate::geom::{Pos, pos_in_range, cheb, cheb_dist, euclid_sq, within_euclid, MIN_ITEM_DIST};
use crate::kinds::ItemKind;

verus! {

/// A free-floating unit of cargo, not bound to any grid cell.
#[derive(Clone, Copy, PartialEq, Eq, Structural, Debug)]
pub struct DroppedItem {
    pub kind: ItemKind,
    pub pos: Pos,
}

/// Whether a new item at `p` would violate the minimum separation against
/// any item of `items`.
pub open spec fn spec_blocked_at(items: Seq<DroppedItem>, p: Pos) -> bool {
    exists|j: int|
        0 <= j < items.len() && cheb((#[trigger] items[j]).pos, p) < MIN_ITEM_DIST
}

/// All pairs of items keep the minimum Chebyshev separation: the core
/// collision rule of the item registry.
pub open spec fn spec_separated(items: Seq<DroppedItem>) -> bool {
    forall|i: int, j: int|
        0 <= i < j < items.len() ==> cheb(
            (#[trigger] items[i]).pos,
            (#[trigger] items[j]).pos,
        ) >= MIN_ITEM_DIST
}

/// Removing an item cannot violate the separation of those that remain.
pub proof fn lemma_separated_remove(items: Seq<DroppedItem>, ij: int)
    requires
        0 <= ij < items.len(),
        spec_separated(items),
    ensures
        spec_separated(items.remove(ij)),
{
    let post = items.remove(ij);
    assert forall|a: int, b: int| 0 <= a < b < post.len() implies cheb(
        (#[trigger] post[a]).pos,
        (#[trigger] post[b]).pos,
    ) >= MIN_ITEM_DIST by {
        assert(post[a] == items[if a < ij { a } else { a + 1 }]);
        assert(post[b] == items[if b < ij { b } else { b + 1 }]);
    }
}

pub struct ItemRegistry {
    pub items: Vec<DroppedItem>,
}

impl ItemRegistry {
    pub open spec fn wf(self) -> bool {
        forall|i: int| 0 <= i < self.items@.len() ==> pos_in_range((#[trigger] self.items@[i]).pos)
    }

    pub fn new() -> (r: ItemRegistry)
        ensures
            r.wf(),
            r.items@ =~= Seq::<DroppedItem>::empty(),
    {
        ItemRegistry { items: Vec::new() }
    }

    /// Whether any item lies strictly within Chebyshev distance `d` of `p`.
    pub fn any_within_cheb(&self, p: Pos, d: i64) -> (r: bool)
        requires
            self.wf(),
            pos_in_range(p),
            d >= 0,
        ensures
            r == exists|j: int|
                0 <= j < self.items@.len() && cheb((#[trigger] self.items@[j]).pos, p) < d,
    {
        let n = self.items.len();
        let mut i: usize = 0;
        while i < n
            invariant
                self.wf(),
                pos_in_range(p),
                n == self.items@.len(),
                i <= n,
                forall|j: int| 0 <= j < i ==> cheb((#[trigger] self.items@[j]).pos, p) >= d,
            decreases n - i,
        {
            if cheb_dist(self.items[i].pos, p) < d {
                return true;
            }
            i = i + 1;
        }
        false
    }

    /// The first item strictly within Euclidean distance `radius` of `p`.
    pub fn find_within_euclid(&self, p: Pos, radius: i64) -> (r: Option<usize>)
        requires
            self.wf(),
            pos_in_range(p),
            0 < radius <= 1000,
        ensures
            match r {
                Some(i) => {
                    &&& i < self.items@.len()
                    &&& euclid_sq(self.items@[i as int].pos, p) < radius * radius
                    &&& forall|j: int|
                        0 <= j < i ==> euclid_sq((#[trigger] self.items@[j]).pos, p) >= radius
                            * radius
                },
                None => forall|j: int|
                    0 <= j < self.items@.len() ==> euclid_sq((#[trigger] self.items@[j]).pos, p)
                        >= radius * radius,
            },
    {
        let n = self.items.len();
        let mut i: usize = 0;
        while i < n
            invariant
                self.wf(),
                pos_in_range(p),
                0 < radius <= 1000,
                n == self.items@.len(),
                i <= n,
                forall|j: int|
                    0 <= j < i ==> euclid_sq((#[trigger] self.items@[j]).pos, p) >= radius
                        * radius,
            decreases n - i,
        {
            if within_euclid(self.items[i].pos, p, radius) {
                return Some(i);
            }
            i = i + 1;
        }
        None
    }

    /// Append an item unconditionally (the caller has already justified
    /// the position).
    pub fn spawn(&mut self, it: DroppedItem)
        requires
            old(self).wf(),
            pos_in_range(it.pos),
        ensures
            final(self).wf(),
            final(self).items@ == old(self).items@.push(it),
    {
        self.items.push(it);
    }

    /// Spawn `it` only if no existing item lies within the minimum
    /// separation of its position; a blocked spawn is a no-op, the
    /// backpressure signal of producers.
    pub fn spawn_if_clear(&mut self, it: DroppedItem) -> (r: bool)
        requires
            old(self).wf(),
            pos_in_range(it.pos),
        ensures
            final(self).wf(),
            r == !spec_blocked_at(old(self).items@, it.pos),
            r ==> final(self).items@ == old(self).items@.push(it),
            !r ==> *final(self) == *old(self),
            spec_separated(old(self).items@) ==> spec_separated(final(self).items@),
    {
        if self.any_within_cheb(it.pos, MIN_ITEM_DIST) {
            false
        } else {
            self.items.push(it);
            proof {
                if spec_separated(old(self).items@) {
                    let post = self.items@;
                    assert forall|a: int, b: int| 0 <= a < b < post.len() implies cheb(
                        (#[trigger] post[a]).pos,
                        (#[trigger] post[b]).pos,
                    ) >= MIN_ITEM_DIST by {
                        if b == post.len() - 1 {
                            assert(post[a] == old(self).items@[a]);
                        }
                    }
                }
            }
            true
        }
    }

    /// Remove and return the item at `i` (a pickup or a consumption).
    pub fn remove_item(&mut self, i: usize) -> (it: DroppedItem)
        requires
            old(self).wf(),
            i < old(self).items@.len(),
        ensures
            final(self).wf(),
            it == old(self).items@[i as int],
            final(self).items@ == old(self).items@.remove(i as int),
    {
        self.items.remove(i)
    }
}

} // verus!
