//! The explicitly-owned world state every tick phase works on, and the
//! cargo accounting used to state that machines neither destroy nor
//! duplicate items.

use vstd::prelude::*;
use crate::grid::{Behavior, GridIndex, PlacedTile};
use crate::items::ItemRegistry;

verus! {

/// The whole simulation state: the grid of machines and resource tiles,
/// and the registry of dropped items.  Passed by reference into each tick
/// phase; there is no ambient global lookup.
pub struct GameWorld {
    pub grid: GridIndex,
    pub items: ItemRegistry,
}

impl GameWorld {
    pub open spec fn wf(self) -> bool {
        &&& self.grid.wf()
        &&& self.items.wf()
    }

    pub fn new() -> (w: GameWorld)
        ensures
            w.wf(),
            w.grid.tiles@ =~= Seq::<PlacedTile>::empty(),
            w.items.items@.len() == 0,
    {
        GameWorld { grid: GridIndex::new(), items: ItemRegistry::new() }
    }
}

/// Units of cargo a machine holds internally: what an inserter carries and
/// what a furnace buffers in its input and output slots.
pub open spec fn cargo_of(t: PlacedTile) -> int {
    match t.behavior {
        Behavior::Arm(a) => if a.carrying is Some { 1 } else { 0 },
        Behavior::Processor(p) => {
            (if p.input is Some { 1int } else { 0 }) + match p.output {
                Some(stack) => stack.count as int,
                None => 0,
            }
        },
        _ => 0,
    }
}

/// Total cargo held inside machines.
pub open spec fn machine_cargo(tiles: Seq<PlacedTile>) -> int
    decreases tiles.len(),
{
    if tiles.len() == 0 {
        0
    } else {
        machine_cargo(tiles.drop_last()) + cargo_of(tiles.last())
    }
}

/// Every unit of cargo in the world: dropped on the ground or held inside
/// a machine.  The inserter and furnace phases preserve this quantity.
pub open spec fn total_cargo(tiles: Seq<PlacedTile>, items_len: int) -> int {
    items_len + machine_cargo(tiles)
}

/// Replacing one machine changes the machine cargo by the difference at
/// that index.
pub proof fn lemma_machine_cargo_update(tiles: Seq<PlacedTile>, i: int, t: PlacedTile)
    requires
        0 <= i < tiles.len(),
    ensures
        machine_cargo(tiles.update(i, t)) == machine_cargo(tiles) - cargo_of(tiles[i])
            + cargo_of(t),
    decreases tiles.len(),
{
    if i == tiles.len() - 1 {
        assert(tiles.update(i, t).drop_last() =~= tiles.drop_last());
    } else {
        assert(tiles.update(i, t).drop_last() =~= tiles.drop_last().update(i, t));
        assert(tiles.update(i, t).last() == tiles.last());
        lemma_machine_cargo_update(tiles.drop_last(), i, t);
    }
}

/// Machines with equal cargo at every index carry equal total cargo.
pub proof fn lemma_machine_cargo_pointwise(s1: Seq<PlacedTile>, s2: Seq<PlacedTile>)
    requires
        s1.len() == s2.len(),
        forall|i: int| 0 <= i < s1.len() ==> cargo_of(#[trigger] s1[i]) == cargo_of(#[trigger] s2[i]),
    ensures
        machine_cargo(s1) == machine_cargo(s2),
    decreases s1.len(),
{
    if s1.len() > 0 {
        lemma_machine_cargo_pointwise(s1.drop_last(), s2.drop_last());
    }
}

} // verus!
