//! The inserter phase: each rotating arm advances its sweep, and at a
//! sweep's endpoint picks an item up (from the ground or from a furnace's
//! output) or places the one it carries (into a furnace's input or onto
//! the ground), then reverses.  An unavailable target stalls the arm:
//! backpressure, never a lost item.

use vstd::prelude::*;
use crate::geom::{Pos, dir_x, dir_y, euclid_sq, pos_in_range, within_euclid};
use crate::grid::{
    ARM_REACH, ARM_SPEED_PER_MS, ARM_SWEEP, ArmState, Behavior, OutputStack, PICKUP_RADIUS,
    PlacedTile, ProcessorState, tile_wf,
};
use crate::items::{DroppedItem, spec_blocked_at, spec_separated};
use crate::kinds::ItemKind;
use crate::timer::MAX_TIME_MS;
use crate::world::{GameWorld, lemma_machine_cargo_update, machine_cargo, total_cargo};

verus! {

/// The world position of a machine's tile center.
pub open spec fn spec_tile_pos(t: PlacedTile) -> Pos {
    Pos { x: (32 * t.coord.x) as i64, y: (32 * t.coord.y) as i64 }
}

/// The arm's tip at the endpoint of its current sweep: `ARM_REACH` ahead
/// of the tile center along the facing, or behind it.
pub open spec fn spec_arm_tip(t: PlacedTile, to_front: bool) -> Pos {
    let off: int = if to_front { ARM_REACH as int } else { -(ARM_REACH as int) };
    Pos {
        x: (32 * t.coord.x + off * dir_x(t.rotation)) as i64,
        y: (32 * t.coord.y + off * dir_y(t.rotation)) as i64,
    }
}

fn arm_tip(t: &PlacedTile, to_front: bool) -> (p: Pos)
    requires
        tile_wf(*t),
    ensures
        p == spec_arm_tip(*t, to_front),
        pos_in_range(p),
        -(crate::geom::POS_LIMIT - 64) <= p.x <= crate::geom::POS_LIMIT - 64,
        -(crate::geom::POS_LIMIT - 64) <= p.y <= crate::geom::POS_LIMIT - 64,
{
    let off: i64 = if to_front { ARM_REACH } else { -ARM_REACH };
    let (dx, dy) = crate::geom::dir_step(t.rotation);
    Pos { x: 32 * t.coord.x + off * dx, y: 32 * t.coord.y + off * dy }
}

/// Sweep progress after `dt` milliseconds, clamped at the endpoint.
pub open spec fn spec_arm_advance(a: ArmState, dt: u64) -> ArmState {
    let next = a.progress + ARM_SPEED_PER_MS * dt;
    ArmState { progress: if next >= ARM_SWEEP { ARM_SWEEP } else { next as u32 }, ..a }
}

/// A machine after the sweep-advance phase: only arms change.
pub open spec fn spec_rotate_tile(t: PlacedTile, dt: u64) -> PlacedTile {
    match t.behavior {
        Behavior::Arm(a) => PlacedTile { behavior: Behavior::Arm(spec_arm_advance(a, dt)), ..t },
        _ => t,
    }
}

/// Advance every inserter arm's sweep by `dt`, clamped at the endpoint;
/// a full sweep takes half a second.  Nothing else changes.
pub fn update_rotating_tiles(world: &mut GameWorld, dt: u64)
    requires
        old(world).wf(),
        dt <= MAX_TIME_MS,
    ensures
        final(world).wf(),
        final(world).grid.tiles@.len() == old(world).grid.tiles@.len(),
        forall|i: int|
            0 <= i < old(world).grid.tiles@.len() ==> final(world).grid.tiles@[i]
                == spec_rotate_tile(#[trigger] old(world).grid.tiles@[i], dt),
        final(world).grid.resources@ == old(world).grid.resources@,
        final(world).items == old(world).items,
        machine_cargo(final(world).grid.tiles@) == machine_cargo(old(world).grid.tiles@),
{
    let n = world.grid.tiles.len();
    let mut i: usize = 0;
    while i < n
        invariant
            world.wf(),
            dt <= MAX_TIME_MS,
            n == world.grid.tiles@.len(),
            i <= n,
            world.grid.tiles@.len() == old(world).grid.tiles@.len(),
            forall|j: int|
                0 <= j < i ==> world.grid.tiles@[j] == spec_rotate_tile(
                    #[trigger] old(world).grid.tiles@[j],
                    dt,
                ),
            forall|j: int|
                i <= j < n ==> world.grid.tiles@[j] == #[trigger] old(world).grid.tiles@[j],
            world.grid.resources@ == old(world).grid.resources@,
            world.items == old(world).items,
        decreases n - i,
    {
        let t = world.grid.tiles[i];
        match t.behavior {
            Behavior::Arm(a) => {
                let next = (a.progress as u64) + (ARM_SPEED_PER_MS as u64) * dt;
                let capped: u32 = if next >= ARM_SWEEP as u64 {
                    ARM_SWEEP
                } else {
                    next as u32
                };
                let t2 = PlacedTile {
                    behavior: Behavior::Arm(ArmState { progress: capped, ..a }),
                    ..t
                };
                world.grid.tiles.set(i, t2);
            },
            _ => {},
        }
        i = i + 1;
    }
    proof {
        crate::world::lemma_machine_cargo_pointwise(world.grid.tiles@, old(world).grid.tiles@);
    }
}

/// Whether machine `j` is a furnace whose center lies within the arm's
/// circular reach of `tip`.
pub open spec fn processor_in_reach(tiles: Seq<PlacedTile>, tip: Pos, j: int) -> bool {
    &&& tiles[j].behavior is Processor
    &&& euclid_sq(spec_tile_pos(tiles[j]), tip) < PICKUP_RADIUS * PICKUP_RADIUS
}

/// The first furnace within reach of `tip`, scanning from `j`; -1 if none.
pub open spec fn spec_first_processor_from(tiles: Seq<PlacedTile>, tip: Pos, j: int) -> int
    decreases tiles.len() - j,
{
    if j < 0 || j >= tiles.len() {
        -1
    } else if processor_in_reach(tiles, tip, j) {
        j
    } else {
        spec_first_processor_from(tiles, tip, j + 1)
    }
}

proof fn lemma_first_processor_skip(tiles: Seq<PlacedTile>, tip: Pos, j: int)
    requires
        0 <= j <= tiles.len(),
        forall|k: int| 0 <= k < j ==> !processor_in_reach(tiles, tip, k),
    ensures
        spec_first_processor_from(tiles, tip, 0) == spec_first_processor_from(tiles, tip, j),
    decreases j,
{
    if j > 0 {
        lemma_first_processor_skip(tiles, tip, j - 1);
    }
}

/// Scan the machines for the first furnace within reach of `tip`.
fn find_processor_in_reach(tiles: &Vec<PlacedTile>, tip: Pos) -> (r: Option<usize>)
    requires
        forall|j: int| 0 <= j < tiles@.len() ==> tile_wf(#[trigger] tiles@[j]),
        pos_in_range(tip),
    ensures
        match r {
            Some(j) => j < tiles@.len() && spec_first_processor_from(tiles@, tip, 0) == j,
            None => spec_first_processor_from(tiles@, tip, 0) == -1,
        },
{
    let n = tiles.len();
    let mut j: usize = 0;
    while j < n
        invariant
            forall|k: int| 0 <= k < tiles@.len() ==> tile_wf(#[trigger] tiles@[k]),
            pos_in_range(tip),
            n == tiles@.len(),
            j <= n,
            forall|k: int| 0 <= k < j ==> !processor_in_reach(tiles@, tip, k),
        decreases n - j,
    {
        let t = &tiles[j];
        match t.behavior {
            Behavior::Processor(_) => {
                let tp = Pos { x: 32 * t.coord.x, y: 32 * t.coord.y };
                if within_euclid(tp, tip, PICKUP_RADIUS) {
                    proof {
                        lemma_first_processor_skip(tiles@, tip, j as int);
                    }
                    return Some(j);
                }
            },
            _ => {},
        }
        j = j + 1;
    }
    proof {
        lemma_first_processor_skip(tiles@, tip, n as int);
    }
    None
}

/// Whether item `j` lies within the arm's circular reach of `tip`.
pub open spec fn item_in_reach(items: Seq<DroppedItem>, tip: Pos, j: int) -> bool {
    euclid_sq(items[j].pos, tip) < PICKUP_RADIUS * PICKUP_RADIUS
}

/// The first item within reach of `tip`, scanning from `j`; -1 if none.
pub open spec fn spec_first_item_from(items: Seq<DroppedItem>, tip: Pos, j: int) -> int
    decreases items.len() - j,
{
    if j < 0 || j >= items.len() {
        -1
    } else if item_in_reach(items, tip, j) {
        j
    } else {
        spec_first_item_from(items, tip, j + 1)
    }
}

proof fn lemma_first_item_skip(items: Seq<DroppedItem>, tip: Pos, j: int)
    requires
        0 <= j <= items.len(),
        forall|k: int| 0 <= k < j ==> !item_in_reach(items, tip, k),
    ensures
        spec_first_item_from(items, tip, 0) == spec_first_item_from(items, tip, j),
    decreases j,
{
    if j > 0 {
        lemma_first_item_skip(items, tip, j - 1);
    }
}

/// An arm that completed an action: sweep reversed, progress restarted,
/// carrying whatever the action left it with.
pub open spec fn spec_arm_reversed(a: ArmState, carrying: Option<ItemKind>) -> ArmState {
    ArmState { progress: 0, to_front: !a.to_front, carrying }
}

/// Where a carried item lands when dropped: the arm tip, corrected by the
/// items' sprite anchor.
pub open spec fn spec_drop_pos(tip: Pos) -> Pos {
    Pos { x: (tip.x + 8) as i64, y: (tip.y - 8) as i64 }
}

/// One inserter's action at the endpoint of its sweep.  Carrying nothing,
/// it grabs the first item within reach, else one unit from the output of
/// the first furnace within reach.  Carrying an item, it hands it to the
/// first furnace within reach if that furnace's input is free, else — only
/// when no furnace is in reach at all — drops it on clear ground.  If the
/// relevant slot is taken or the ground blocked, nothing happens and the
/// arm holds at the endpoint.
pub open spec fn spec_mover_step(tiles: Seq<PlacedTile>, items: Seq<DroppedItem>, i: int) -> (
    Seq<PlacedTile>,
    Seq<DroppedItem>,
) {
    match tiles[i].behavior {
        Behavior::Arm(a) => {
            if a.progress != ARM_SWEEP {
                (tiles, items)
            } else {
                let tip = spec_arm_tip(tiles[i], a.to_front);
                match a.carrying {
                    Some(item) => {
                        let pj = spec_first_processor_from(tiles, tip, 0);
                        if pj >= 0 {
                            let p = tiles[pj].behavior->Processor_0;
                            if p.input is None {
                                let fed = PlacedTile {
                                    behavior: Behavior::Processor(
                                        ProcessorState { input: Some(item), ..p },
                                    ),
                                    ..tiles[pj]
                                };
                                let arm2 = PlacedTile {
                                    behavior: Behavior::Arm(spec_arm_reversed(a, None)),
                                    ..tiles[i]
                                };
                                (tiles.update(pj, fed).update(i, arm2), items)
                            } else {
                                (tiles, items)
                            }
                        } else {
                            let dp = spec_drop_pos(tip);
                            if !spec_blocked_at(items, dp) {
                                let arm2 = PlacedTile {
                                    behavior: Behavior::Arm(spec_arm_reversed(a, None)),
                                    ..tiles[i]
                                };
                                (
                                    tiles.update(i, arm2),
                                    items.push(DroppedItem { kind: item, pos: dp }),
                                )
                            } else {
                                (tiles, items)
                            }
                        }
                    },
                    None => {
                        let ij = spec_first_item_from(items, tip, 0);
                        if ij >= 0 {
                            let arm2 = PlacedTile {
                                behavior: Behavior::Arm(
                                    spec_arm_reversed(a, Some(items[ij].kind)),
                                ),
                                ..tiles[i]
                            };
                            (tiles.update(i, arm2), items.remove(ij))
                        } else {
                            let pj = spec_first_processor_from(tiles, tip, 0);
                            if pj >= 0 && tiles[pj].behavior->Processor_0.output is Some
                                && tiles[pj].behavior->Processor_0.output->0.count > 0 {
                                let p = tiles[pj].behavior->Processor_0;
                                let stack = p.output->0;
                                let drained = PlacedTile {
                                    behavior: Behavior::Processor(
                                        ProcessorState {
                                            output: if stack.count > 1 {
                                                Some(
                                                    OutputStack {
                                                        count: (stack.count - 1) as u64,
                                                        ..stack
                                                    },
                                                )
                                            } else {
                                                None
                                            },
                                            ..p
                                        },
                                    ),
                                    ..tiles[pj]
                                };
                                let arm2 = PlacedTile {
                                    behavior: Behavior::Arm(
                                        spec_arm_reversed(a, Some(stack.kind)),
                                    ),
                                    ..tiles[i]
                                };
                                (tiles.update(pj, drained).update(i, arm2), items)
                            } else {
                                (tiles, items)
                            }
                        }
                    },
                }
            }
        },
        _ => (tiles, items),
    }
}

/// The inserter phase folded over the machines from index `i` on, in
/// machine order; later arms see the effects of earlier ones.
pub open spec fn spec_mover_phase(tiles: Seq<PlacedTile>, items: Seq<DroppedItem>, i: int) -> (
    Seq<PlacedTile>,
    Seq<DroppedItem>,
)
    decreases tiles.len() - i,
    via spec_mover_phase_dec
{
    if i < 0 || i >= tiles.len() {
        (tiles, items)
    } else {
        let (tiles2, items2) = spec_mover_step(tiles, items, i);
        spec_mover_phase(tiles2, items2, i + 1)
    }
}

#[via_fn]
proof fn spec_mover_phase_dec(tiles: Seq<PlacedTile>, items: Seq<DroppedItem>, i: int) {
    if 0 <= i < tiles.len() {
        lemma_mover_step_len(tiles, items, i);
    }
}

/// A mover step never adds or removes machines.
pub proof fn lemma_mover_step_len(tiles: Seq<PlacedTile>, items: Seq<DroppedItem>, i: int)
    requires
        0 <= i < tiles.len(),
    ensures
        spec_mover_step(tiles, items, i).0.len() == tiles.len(),
{
    match tiles[i].behavior {
        Behavior::Arm(a) => {
            if a.progress == ARM_SWEEP {
                let tip = spec_arm_tip(tiles[i], a.to_front);
                if spec_first_processor_from(tiles, tip, 0) >= 0 {
                    lemma_first_processor_found(tiles, tip, 0);
                }
                if a.carrying is None && spec_first_item_from(items, tip, 0) >= 0 {
                    lemma_first_item_found(items, tip, 0);
                }
            }
        },
        _ => {},
    }
}

/// One mover step neither creates nor destroys cargo: what leaves the
/// ground or a furnace is exactly what the arm now carries, and what the
/// arm stops carrying lands on the ground or in a furnace.
pub proof fn lemma_mover_step_conserves(tiles: Seq<PlacedTile>, items: Seq<DroppedItem>, i: int)
    requires
        0 <= i < tiles.len(),
    ensures
        ({
            let (tiles2, items2) = spec_mover_step(tiles, items, i);
            total_cargo(tiles2, items2.len() as int) == total_cargo(tiles, items.len() as int)
        }),
{
    let (tiles2, items2) = spec_mover_step(tiles, items, i);
    match tiles[i].behavior {
        Behavior::Arm(a) => {
            if a.progress == ARM_SWEEP {
                let tip = spec_arm_tip(tiles[i], a.to_front);
                match a.carrying {
                    Some(item) => {
                        let pj = spec_first_processor_from(tiles, tip, 0);
                        if pj >= 0 {
                            lemma_first_processor_found(tiles, tip, 0);
                            let p = tiles[pj].behavior->Processor_0;
                            if p.input is None {
                                let mid = tiles.update(pj, tiles2[pj]);
                                lemma_machine_cargo_update(tiles, pj, tiles2[pj]);
                                lemma_machine_cargo_update(mid, i, tiles2[i]);
                            }
                        } else {
                            let dp = spec_drop_pos(tip);
                            if !spec_blocked_at(items, dp) {
                                lemma_machine_cargo_update(tiles, i, tiles2[i]);
                            }
                        }
                    },
                    None => {
                        let ij = spec_first_item_from(items, tip, 0);
                        if ij >= 0 {
                            lemma_first_item_found(items, tip, 0);
                            lemma_machine_cargo_update(tiles, i, tiles2[i]);
                        } else {
                            let pj = spec_first_processor_from(tiles, tip, 0);
                            if pj >= 0 && tiles[pj].behavior->Processor_0.output is Some
                                && tiles[pj].behavior->Processor_0.output->0.count > 0 {
                                lemma_first_processor_found(tiles, tip, 0);
                                let mid = tiles.update(pj, tiles2[pj]);
                                lemma_machine_cargo_update(tiles, pj, tiles2[pj]);
                                lemma_machine_cargo_update(mid, i, tiles2[i]);
                            }
                        }
                    },
                }
            }
        },
        _ => {},
    }
}

/// A nonnegative result of the first-furnace scan is a valid index of a
/// furnace in reach.
pub proof fn lemma_first_processor_found(tiles: Seq<PlacedTile>, tip: Pos, j: int)
    requires
        0 <= j,
        spec_first_processor_from(tiles, tip, j) >= 0,
    ensures
        ({
            let r = spec_first_processor_from(tiles, tip, j);
            &&& j <= r < tiles.len()
            &&& processor_in_reach(tiles, tip, r)
        }),
    decreases tiles.len() - j,
{
    if j < tiles.len() && !processor_in_reach(tiles, tip, j) {
        lemma_first_processor_found(tiles, tip, j + 1);
    }
}

/// Likewise for the first-item scan.
pub proof fn lemma_first_item_found(items: Seq<DroppedItem>, tip: Pos, j: int)
    requires
        0 <= j,
        spec_first_item_from(items, tip, j) >= 0,
    ensures
        ({
            let r = spec_first_item_from(items, tip, j);
            &&& j <= r < items.len()
            &&& item_in_reach(items, tip, r)
        }),
    decreases items.len() - j,
{
    if j < items.len() && !item_in_reach(items, tip, j) {
        lemma_first_item_found(items, tip, j + 1);
    }
}

/// The whole inserter phase conserves cargo: no item is silently destroyed
/// or duplicated during a sweep.
pub proof fn lemma_mover_phase_conserves(tiles: Seq<PlacedTile>, items: Seq<DroppedItem>, i: int)
    requires
        0 <= i <= tiles.len(),
    ensures
        ({
            let (tiles2, items2) = spec_mover_phase(tiles, items, i);
            total_cargo(tiles2, items2.len() as int) == total_cargo(tiles, items.len() as int)
        }),
    decreases tiles.len() - i,
{
    if i < tiles.len() {
        let (t2, i2) = spec_mover_step(tiles, items, i);
        lemma_mover_step_len(tiles, items, i);
        lemma_mover_step_conserves(tiles, items, i);
        lemma_mover_phase_conserves(t2, i2, i + 1);
    }
}

/// One fixed tick of every inserter arm's endpoint action, in machine
/// order.  The phase conserves cargo: an item picked up leaves the ground
/// or a furnace exactly as the arm starts carrying it, and is handed on
/// intact.
pub fn update_movers(world: &mut GameWorld)
    requires
        old(world).wf(),
    ensures
        final(world).wf(),
        ({
            let (tiles2, items2) = spec_mover_phase(
                old(world).grid.tiles@,
                old(world).items.items@,
                0,
            );
            final(world).grid.tiles@ == tiles2 && final(world).items.items@ == items2
        }),
        final(world).grid.resources@ == old(world).grid.resources@,
        total_cargo(final(world).grid.tiles@, final(world).items.items@.len() as int)
            == total_cargo(old(world).grid.tiles@, old(world).items.items@.len() as int),
        spec_separated(old(world).items.items@) ==> spec_separated(final(world).items.items@),
{
    let ghost goal = spec_mover_phase(old(world).grid.tiles@, old(world).items.items@, 0);
    let n = world.grid.tiles.len();
    let mut i: usize = 0;
    while i < n
        invariant
            world.wf(),
            n == world.grid.tiles@.len(),
            i <= n,
            world.grid.resources@ == old(world).grid.resources@,
            spec_mover_phase(world.grid.tiles@, world.items.items@, i as int) == goal,
            spec_separated(old(world).items.items@) ==> spec_separated(world.items.items@),
        decreases n - i,
    {
        let ghost pre_tiles = world.grid.tiles@;
        let ghost pre_items = world.items.items@;
        let t = world.grid.tiles[i];
        match t.behavior {
            Behavior::Arm(a) => {
                if a.progress == ARM_SWEEP {
                    let tip = arm_tip(&t, a.to_front);
                    match a.carrying {
                        Some(item) => {
                            match find_processor_in_reach(&world.grid.tiles, tip) {
                                Some(pj) => {
                                    proof {
                                        lemma_first_processor_found(pre_tiles, tip, 0);
                                    }
                                    let pt = world.grid.tiles[pj];
                                    match pt.behavior {
                                        Behavior::Processor(p) => {
                                            if matches!(p.input, None) {
                                                let fed = PlacedTile {
                                                    behavior: Behavior::Processor(
                                                        ProcessorState { input: Some(item), ..p },
                                                    ),
                                                    ..pt
                                                };
                                                world.grid.tiles.set(pj, fed);
                                                let arm2 = PlacedTile {
                                                    behavior: Behavior::Arm(
                                                        ArmState {
                                                            progress: 0,
                                                            to_front: !a.to_front,
                                                            carrying: None,
                                                        },
                                                    ),
                                                    ..t
                                                };
                                                world.grid.tiles.set(i, arm2);
                                            }
                                        },
                                        _ => {
                                            proof {
                                                assert(false);
                                            }
                                        },
                                    }
                                },
                                None => {
                                    let dp = Pos { x: tip.x + 8, y: tip.y - 8 };
                                    let placed = world.items.spawn_if_clear(
                                        DroppedItem { kind: item, pos: dp },
                                    );
                                    if placed {
                                        let arm2 = PlacedTile {
                                            behavior: Behavior::Arm(
                                                ArmState {
                                                    progress: 0,
                                                    to_front: !a.to_front,
                                                    carrying: None,
                                                },
                                            ),
                                            ..t
                                        };
                                        world.grid.tiles.set(i, arm2);
                                    }
                                },
                            }
                        },
                        None => {
                            match world.items.find_within_euclid(tip, PICKUP_RADIUS) {
                                Some(ij) => {
                                    proof {
                                        lemma_first_item_skip(pre_items, tip, ij as int);
                                        if spec_separated(pre_items) {
                                            crate::items::lemma_separated_remove(
                                                pre_items,
                                                ij as int,
                                            );
                                        }
                                    }
                                    let it = world.items.remove_item(ij);
                                    let arm2 = PlacedTile {
                                        behavior: Behavior::Arm(
                                            ArmState {
                                                progress: 0,
                                                to_front: !a.to_front,
                                                carrying: Some(it.kind),
                                            },
                                        ),
                                        ..t
                                    };
                                    world.grid.tiles.set(i, arm2);
                                },
                                None => {
                                    proof {
                                        lemma_first_item_skip(
                                            pre_items,
                                            tip,
                                            pre_items.len() as int,
                                        );
                                    }
                                    match find_processor_in_reach(&world.grid.tiles, tip) {
                                        Some(pj) => {
                                            proof {
                                                lemma_first_processor_found(pre_tiles, tip, 0);
                                            }
                                            let pt = world.grid.tiles[pj];
                                            match pt.behavior {
                                                Behavior::Processor(p) => {
                                                    match p.output {
                                                        Some(stack) => {
                                                            if stack.count > 0 {
                                                                let drained = PlacedTile {
                                                                    behavior: Behavior::Processor(
                                                                        ProcessorState {
                                                                            output: if stack.count
                                                                                > 1 {
                                                                                Some(
                                                                                    OutputStack {
                                                                                        count: stack.count
                                                                                            - 1,
                                                                                        ..stack
                                                                                    },
                                                                                )
                                                                            } else {
                                                                                None
                                                                            },
                                                                            ..p
                                                                        },
                                                                    ),
                                                                    ..pt
                                                                };
                                                                world.grid.tiles.set(pj, drained);
                                                                let arm2 = PlacedTile {
                                                                    behavior: Behavior::Arm(
                                                                        ArmState {
                                                                            progress: 0,
                                                                            to_front: !a.to_front,
                                                                            carrying: Some(
                                                                                stack.kind,
                                                                            ),
                                                                        },
                                                                    ),
                                                                    ..t
                                                                };
                                                                world.grid.tiles.set(i, arm2);
                                                            }
                                                        },
                                                        None => {},
                                                    }
                                                },
                                                _ => {
                                                    proof {
                                                        assert(false);
                                                    }
                                                },
                                            }
                                        },
                                        None => {},
                                    }
                                },
                            }
                        },
                    }
                }
            },
            _ => {},
        }
        proof {
            lemma_mover_step_len(pre_tiles, pre_items, i as int);
            assert((world.grid.tiles@, world.items.items@) == spec_mover_step(
                pre_tiles,
                pre_items,
                i as int,
            ));
        }
        i = i + 1;
    }
    proof {
        lemma_mover_phase_conserves(old(world).grid.tiles@, old(world).items.items@, 0);
    }
}

} // verus!
