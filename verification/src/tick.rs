//! The fixed-rate tick scheduler: one simulation step runs the phases in a
//! strict order — belt transport, miner production, inserter sweep and
//! action, furnace conversion — each phase reading a consistent state and
//! writing its results before the next begins.

use vstd::prelude::*;
use crate::belt::{spec_committed_move, spec_moved_items, update_tiles};
use crate::furnace::{spec_processor_phase_tile, update_item_processors};
use crate::grid::PlacedTile;
use crate::inserter::{spec_mover_phase, spec_rotate_tile, update_movers, update_rotating_tiles};
use crate::items::spec_separated;
use crate::miner::{spec_miner_phase, update_miners};
use crate::timer::MAX_TIME_MS;
use crate::world::{GameWorld, total_cargo};

verus! {

/// All machines after the sweep-advance phase.
pub open spec fn spec_rotate_all(tiles: Seq<PlacedTile>, dt: u64) -> Seq<PlacedTile> {
    Seq::new(tiles.len(), |i: int| spec_rotate_tile(tiles[i], dt))
}

/// All machines after the furnace phase.
pub open spec fn spec_process_all(tiles: Seq<PlacedTile>, dt: u64) -> Seq<PlacedTile> {
    Seq::new(tiles.len(), |i: int| spec_processor_phase_tile(tiles[i], dt))
}

/// One fixed simulation step of `dt` milliseconds: belts move items, miners
/// produce, arms sweep and act, furnaces convert — in that order, so no
/// phase observes another's in-progress mutation.  When the belt moves all
/// lie along one axis, the minimum-separation invariant of the dropped
/// items is preserved across the whole step.
pub fn fixed_tick(world: &mut GameWorld, dt: u64)
    requires
        old(world).wf(),
        dt <= MAX_TIME_MS,
    ensures
        final(world).wf(),
        final(world).grid.resources@ == old(world).grid.resources@,
        ({
            let t0 = old(world).grid.tiles@;
            let r = old(world).grid.resources@;
            let s0 = old(world).items.items@;
            let s1 = spec_moved_items(t0, s0);
            let (t2, s2) = spec_miner_phase(t0, r, s1, dt, 0);
            let t3 = spec_rotate_all(t2, dt);
            let (t4, s4) = spec_mover_phase(t3, s2, 0);
            let t5 = spec_process_all(t4, dt);
            final(world).grid.tiles@ == t5 && final(world).items.items@ == s4
        }),
        ({
            let t0 = old(world).grid.tiles@;
            let s0 = old(world).items.items@;
            (spec_separated(s0) && ((forall|k: int|
                0 <= k < s0.len() ==> (#[trigger] spec_committed_move(t0, s0, k)).1 == 0)
                || (forall|k: int|
                0 <= k < s0.len() ==> (#[trigger] spec_committed_move(t0, s0, k)).0 == 0)))
                ==> spec_separated(final(world).items.items@)
        }),
        ({
            let t0 = old(world).grid.tiles@;
            let r = old(world).grid.resources@;
            let s0 = old(world).items.items@;
            let s1 = spec_moved_items(t0, s0);
            let (t2, s2) = spec_miner_phase(t0, r, s1, dt, 0);
            // Cargo accounting over the whole step: only the miners create
            // items; belts, arms and furnaces move cargo without creating
            // or destroying a unit.
            &&& s2.len() >= s0.len()
            &&& total_cargo(final(world).grid.tiles@, final(world).items.items@.len() as int)
                == total_cargo(t0, s0.len() as int) + (s2.len() - s0.len())
        }),
{
    let ghost t0 = world.grid.tiles@;
    let ghost s0 = world.items.items@;
    update_tiles(world);
    proof {
        assert(world.items.items@ =~= spec_moved_items(t0, s0));
        if spec_separated(s0) && ((forall|k: int|
            0 <= k < s0.len() ==> (#[trigger] spec_committed_move(t0, s0, k)).1 == 0)
            || (forall|k: int|
            0 <= k < s0.len() ==> (#[trigger] spec_committed_move(t0, s0, k)).0 == 0)) {
            crate::belt::lemma_belt_phase_preserves_separation(t0, s0);
        }
    }
    proof {
        crate::miner::lemma_miner_phase_cargo(
            t0,
            world.grid.resources@,
            world.items.items@,
            dt,
            0,
        );
    }
    update_miners(world, dt);
    let ghost t2 = world.grid.tiles@;
    update_rotating_tiles(world, dt);
    proof {
        assert(world.grid.tiles@ =~= spec_rotate_all(t2, dt));
    }
    update_movers(world);
    let ghost t4 = world.grid.tiles@;
    update_item_processors(world, dt);
    proof {
        assert(world.grid.tiles@ =~= spec_process_all(t4, dt));
    }
}

} // verus!
