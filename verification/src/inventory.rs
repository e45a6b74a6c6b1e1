//! The player and their inventory: an ordered list of (item kind, count)
//! pairs with every count positive and each kind appearing at most once.

use vstd::prelude::*;
use crate::kinds::ItemKind;

verus! {

/// Total units of `k` held across an inventory list.
pub open spec fn count_of(inv: Seq<(ItemKind, usize)>, k: ItemKind) -> int
    decreases inv.len(),
{
    if inv.len() == 0 {
        0
    } else {
        count_of(inv.drop_last(), k) + if inv.last().0 == k { inv.last().1 as int } else { 0 }
    }
}

pub open spec fn inventory_wf(inv: Seq<(ItemKind, usize)>) -> bool {
    &&& forall|i: int| 0 <= i < inv.len() ==> #[trigger] inv[i].1 > 0
    &&& forall|i: int, j: int|
        0 <= i < j < inv.len() ==> #[trigger] inv[i].0 != #[trigger] inv[j].0
}

/// Counting a prefix extended by one entry.
proof fn lemma_count_take_step(inv: Seq<(ItemKind, usize)>, k: ItemKind, i: int)
    requires
        0 <= i < inv.len(),
    ensures
        count_of(inv.take(i + 1), k) == count_of(inv.take(i), k)
            + if inv[i].0 == k { inv[i].1 as int } else { 0 },
{
    assert(inv.take(i + 1).drop_last() =~= inv.take(i));
    assert(inv.take(i + 1).last() == inv[i]);
}

/// In a well-formed inventory, an entry for `k` at `i` accounts for the
/// whole count of `k`, and absence of an entry means a zero count.
proof fn lemma_count_from_entry(inv: Seq<(ItemKind, usize)>, k: ItemKind, i: int)
    requires
        inventory_wf(inv),
        0 <= i < inv.len(),
        inv[i].0 == k,
    ensures
        count_of(inv, k) == inv[i].1 as int,
    decreases inv.len(),
{
    if i == inv.len() - 1 {
        lemma_count_absent(inv.drop_last(), k);
    } else {
        assert(inventory_wf(inv.drop_last()));
        lemma_count_from_entry(inv.drop_last(), k, i);
    }
}

proof fn lemma_count_absent(inv: Seq<(ItemKind, usize)>, k: ItemKind)
    requires
        forall|i: int| 0 <= i < inv.len() ==> #[trigger] inv[i].0 != k,
    ensures
        count_of(inv, k) == 0,
    decreases inv.len(),
{
    if inv.len() > 0 {
        lemma_count_absent(inv.drop_last(), k);
    }
}

/// Replacing the entry at `i` changes only the count of the kinds involved.
proof fn lemma_count_update(
    inv: Seq<(ItemKind, usize)>,
    i: int,
    e: (ItemKind, usize),
    k: ItemKind,
)
    requires
        0 <= i < inv.len(),
        inv[i].0 == e.0,
    ensures
        count_of(inv.update(i, e), k) == count_of(inv, k)
            + if e.0 == k { e.1 as int - inv[i].1 as int } else { 0 },
    decreases inv.len(),
{
    if i == inv.len() - 1 {
        assert(inv.update(i, e).drop_last() =~= inv.drop_last());
    } else {
        assert(inv.update(i, e).drop_last() =~= inv.drop_last().update(i, e));
        lemma_count_update(inv.drop_last(), i, e, k);
    }
}

/// Removing the entry at `i` subtracts exactly its contribution.
proof fn lemma_count_remove(inv: Seq<(ItemKind, usize)>, i: int, k: ItemKind)
    requires
        0 <= i < inv.len(),
    ensures
        count_of(inv.remove(i), k) == count_of(inv, k)
            - if inv[i].0 == k { inv[i].1 as int } else { 0 },
    decreases inv.len(),
{
    if i == inv.len() - 1 {
        assert(inv.remove(i) =~= inv.drop_last());
    } else {
        assert(inv.remove(i).drop_last() =~= inv.drop_last().remove(i));
        assert(inv.remove(i).last() == inv.last());
        lemma_count_remove(inv.drop_last(), i, k);
    }
}

proof fn lemma_count_push(inv: Seq<(ItemKind, usize)>, e: (ItemKind, usize), k: ItemKind)
    ensures
        count_of(inv.push(e), k) == count_of(inv, k) + if e.0 == k { e.1 as int } else { 0 },
{
    assert(inv.push(e).drop_last() =~= inv);
}

/// How an inventory list looks after one unit of `k` was added: the
/// existing entry for `k` is bumped in place, or — when no entry held
/// `k` — a fresh `(k, 1)` entry is appended at the end.  No other entry
/// changes and the relative order is kept.
pub open spec fn spec_bumped(
    inv0: Seq<(ItemKind, usize)>,
    inv1: Seq<(ItemKind, usize)>,
    k: ItemKind,
) -> bool {
    ||| exists|i: int|
        0 <= i < inv0.len() && (#[trigger] inv0[i]).0 == k && inv1 == inv0.update(
            i,
            (k, (inv0[i].1 + 1) as usize),
        )
    ||| ((forall|j: int| 0 <= j < inv0.len() ==> (#[trigger] inv0[j]).0 != k) && inv1
        == inv0.push((k, 1)))
}

/// How an inventory list looks after one unit of `k` was taken out: the
/// entry for `k` is decremented in place, or removed where its count was
/// one.  No other entry changes and the relative order is kept.
pub open spec fn spec_drained(
    inv0: Seq<(ItemKind, usize)>,
    inv1: Seq<(ItemKind, usize)>,
    k: ItemKind,
) -> bool {
    exists|i: int|
        0 <= i < inv0.len() && (#[trigger] inv0[i]).0 == k && if inv0[i].1 == 1 {
            inv1 == inv0.remove(i)
        } else {
            inv1 == inv0.update(i, (k, (inv0[i].1 - 1) as usize))
        }
}

/// Adding one unit of `k` and then taking one out leaves the inventory
/// list exactly as it was: an in-place bump is undone in place, and a
/// freshly appended `(k, 1)` entry is pruned away again.
pub proof fn lemma_increment_then_decrement_identity(
    inv0: Seq<(ItemKind, usize)>,
    inv1: Seq<(ItemKind, usize)>,
    inv2: Seq<(ItemKind, usize)>,
    k: ItemKind,
)
    requires
        inventory_wf(inv0),
        forall|j: int| 0 <= j < inv0.len() ==> (#[trigger] inv0[j]).1 < usize::MAX,
        spec_bumped(inv0, inv1, k),
        spec_drained(inv1, inv2, k),
    ensures
        inv2 == inv0,
{
    if exists|i: int|
        0 <= i < inv0.len() && (#[trigger] inv0[i]).0 == k && inv1 == inv0.update(
            i,
            (k, (inv0[i].1 + 1) as usize),
        ) {
        let i = choose|i: int|
            0 <= i < inv0.len() && (#[trigger] inv0[i]).0 == k && inv1 == inv0.update(
                i,
                (k, (inv0[i].1 + 1) as usize),
            );
        let i2 = choose|i2: int|
            0 <= i2 < inv1.len() && (#[trigger] inv1[i2]).0 == k && if inv1[i2].1 == 1 {
                inv2 == inv1.remove(i2)
            } else {
                inv2 == inv1.update(i2, (k, (inv1[i2].1 - 1) as usize))
            };
        if i2 != i {
            assert(inv0[i2].0 == k);
            assert(inv0[if i < i2 { i } else { i2 }].0 == inv0[if i < i2 { i2 } else { i }].0);
        }
        assert(inv1[i].1 == inv0[i].1 + 1 >= 2);
        assert(inv2 =~= inv0);
    } else {
        let i2 = choose|i2: int|
            0 <= i2 < inv1.len() && (#[trigger] inv1[i2]).0 == k && if inv1[i2].1 == 1 {
                inv2 == inv1.remove(i2)
            } else {
                inv2 == inv1.update(i2, (k, (inv1[i2].1 - 1) as usize))
            };
        assert(i2 == inv0.len()) by {
            if i2 < inv0.len() {
                assert(inv1[i2] == inv0[i2]);
            }
        }
        assert(inv2 =~= inv0);
    }
}

/// The player: the roaming avatar's simulation state, an inventory of
/// counted item kinds.
pub struct Player {
    pub inventory: Vec<(ItemKind, usize)>,
}

impl Player {
    pub open spec fn wf(self) -> bool {
        inventory_wf(self.inventory@)
    }

    /// How many units of `k` the player holds.
    pub open spec fn count(self, k: ItemKind) -> int {
        count_of(self.inventory@, k)
    }

    pub fn new() -> (p: Player)
        ensures
            p.wf(),
            p.inventory@ =~= Seq::<(ItemKind, usize)>::empty(),
    {
        Player { inventory: Vec::new() }
    }

    /// Whether at least one unit of `item_type` is held.
    pub fn has_item_in_inventory(&mut self, item_type: ItemKind) -> (r: bool)
        requires
            old(self).wf(),
        ensures
            *final(self) == *old(self),
            r == (old(self).count(item_type) > 0),
    {
        let n = self.inventory.len();
        let mut i: usize = 0;
        while i < n
            invariant
                self == old(self),
                old(self).wf(),
                n == self.inventory@.len(),
                i <= n,
                forall|j: int| 0 <= j < i ==> #[trigger] self.inventory@[j].0 != item_type,
            decreases n - i,
        {
            if self.inventory[i].0 == item_type {
                proof {
                    lemma_count_from_entry(self.inventory@, item_type, i as int);
                }
                return true;
            }
            i = i + 1;
        }
        proof {
            lemma_count_absent(self.inventory@, item_type);
        }
        false
    }

    /// Take one unit of `item_type` out, pruning the entry when it reaches
    /// zero.  On a kind not held this is a no-op reporting failure.
    pub fn decrement_inventory(&mut self, item_type: ItemKind) -> (r: bool)
        requires
            old(self).wf(),
        ensures
            final(self).wf(),
            r == (old(self).count(item_type) > 0),
            r ==> final(self).count(item_type) == old(self).count(item_type) - 1,
            r ==> spec_drained(old(self).inventory@, final(self).inventory@, item_type),
            !r ==> *final(self) == *old(self),
            forall|k: ItemKind| k != item_type ==> final(self).count(k) == old(self).count(k),
    {
        let n = self.inventory.len();
        let mut i: usize = 0;
        while i < n
            invariant
                self == old(self),
                old(self).wf(),
                n == self.inventory@.len(),
                i <= n,
                forall|j: int| 0 <= j < i ==> #[trigger] self.inventory@[j].0 != item_type,
            decreases n - i,
        {
            let (k, c) = self.inventory[i];
            if k == item_type {
                proof {
                    lemma_count_from_entry(self.inventory@, item_type, i as int);
                }
                if c == 1 {
                    let ghost pre = self.inventory@;
                    self.inventory.remove(i);
                    proof {
                        assert forall|k2: ItemKind| true implies count_of(
                            self.inventory@,
                            k2,
                        ) == count_of(pre, k2) - if pre[i as int].0 == k2 {
                            pre[i as int].1 as int
                        } else {
                            0
                        } by {
                            lemma_count_remove(pre, i as int, k2);
                        }
                    }
                } else {
                    let ghost pre = self.inventory@;
                    self.inventory.set(i, (k, c - 1));
                    proof {
                        assert forall|k2: ItemKind| true implies count_of(
                            self.inventory@,
                            k2,
                        ) == count_of(pre, k2) + if k2 == item_type {
                            (c - 1) - pre[i as int].1 as int
                        } else {
                            0
                        } by {
                            lemma_count_update(pre, i as int, (k, (c - 1) as usize), k2);
                        }
                    }
                }
                return true;
            }
            i = i + 1;
        }
        proof {
            lemma_count_absent(self.inventory@, item_type);
        }
        false
    }

    /// Add one unit of `item_type`, extending the list when the kind is new.
    pub fn increment_inventory(&mut self, item_type: ItemKind) -> (r: bool)
        requires
            old(self).wf(),
            old(self).count(item_type) < usize::MAX,
        ensures
            final(self).wf(),
            r,
            final(self).count(item_type) == old(self).count(item_type) + 1,
            spec_bumped(old(self).inventory@, final(self).inventory@, item_type),
            forall|k: ItemKind| k != item_type ==> final(self).count(k) == old(self).count(k),
    {
        let n = self.inventory.len();
        let mut i: usize = 0;
        while i < n
            invariant
                self == old(self),
                old(self).wf(),
                old(self).count(item_type) < usize::MAX,
                n == self.inventory@.len(),
                i <= n,
                forall|j: int| 0 <= j < i ==> #[trigger] self.inventory@[j].0 != item_type,
            decreases n - i,
        {
            let (k, c) = self.inventory[i];
            if k == item_type {
                proof {
                    lemma_count_from_entry(self.inventory@, item_type, i as int);
                }
                let ghost pre = self.inventory@;
                self.inventory.set(i, (k, c + 1));
                proof {
                    assert forall|k2: ItemKind| true implies count_of(self.inventory@, k2)
                        == count_of(pre, k2) + if k2 == item_type { 1int } else { 0int } by {
                        lemma_count_update(pre, i as int, (k, (c + 1) as usize), k2);
                    }
                }
                return true;
            }
            i = i + 1;
        }
        proof {
            lemma_count_absent(self.inventory@, item_type);
        }
        let ghost pre = self.inventory@;
        self.inventory.push((item_type, 1));
        proof {
            assert forall|k2: ItemKind| true implies count_of(self.inventory@, k2) == count_of(
                pre,
                k2,
            ) + if k2 == item_type { 1int } else { 0int } by {
                lemma_count_push(pre, (item_type, 1), k2);
            }
        }
        true
    }
}

} // verus!
