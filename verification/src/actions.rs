//! The placement/removal protocol and the other player-issued actions:
//! dropping and picking up items, rate-limited deletion, and drag
//! placement that rasterizes the pointer's path into grid cells.  Each
//! step's effect is stated as a relation between the states before and
//! after; the orchestrator chains them in a fixed order.

use vstd::prelude::*;
use crate::geom::{Coord, Pos, cell_of_pos, cheb, cheb_dist, coord_in_range, euclid_sq, pos_in_range, spec_cell_of};
use crate::grid::{
    ARM_SWEEP, ArmState, Behavior, FURNACE_PERIOD_MS, MINER_PERIOD_MS, PlacedTile, ProcessorState,
    ProducerState, ResourceTile, spec_occupied, spec_resource_matches, tile_wf,
};
use crate::inventory::Player;
use crate::items::DroppedItem;
use crate::kinds::{ItemKind, MachineKind, ResourceKind, machine_for_item, resource_item, spec_machine_for_item, spec_resource_item};
use crate::timer::{MAX_TIME_MS, SimTimer, timer_wf};
use crate::world::GameWorld;

verus! {

/// Magnitude bound on pointer world positions, a machine limit that keeps
/// the drag-sampling arithmetic in range.
pub const MOUSE_LIMIT: i64 = 0x10_0000;

/// Held drop and pickup keys repeat once per this period.
pub const ACTION_PERIOD_MS: u64 = 100;

/// The held delete button repeats once per this period, so a press cannot
/// clear dozens of tiles in one frame.
pub const DELETE_PERIOD_MS: u64 = 500;

pub open spec fn mouse_in_range(p: Pos) -> bool {
    &&& -MOUSE_LIMIT <= p.x <= MOUSE_LIMIT
    &&& -MOUSE_LIMIT <= p.y <= MOUSE_LIMIT
}

/// The player-facing input state the simulation consumes: which held
/// buttons are down, their repeat timers, the build rotation and the item
/// in hand.
#[derive(Clone, Copy, PartialEq, Eq, Structural, Debug)]
pub struct InputState {
    pub drag_start: Option<Pos>,
    pub dropping_items: bool,
    pub dropping_items_timer: Option<SimTimer>,
    pub picking_items: bool,
    pub picking_items_timer: Option<SimTimer>,
    pub deleting_tile: bool,
    pub deleting_tile_timer: Option<SimTimer>,
    pub rotation: u8,
    pub item_in_hand: Option<ItemKind>,
}

pub open spec fn input_wf(s: InputState) -> bool {
    &&& s.rotation < 4
    &&& match s.drag_start {
        Some(p) => mouse_in_range(p),
        None => true,
    }
    &&& match s.dropping_items_timer {
        Some(t) => timer_wf(t) && t.period_ms == ACTION_PERIOD_MS,
        None => true,
    }
    &&& match s.picking_items_timer {
        Some(t) => timer_wf(t) && t.period_ms == ACTION_PERIOD_MS,
        None => true,
    }
    &&& match s.deleting_tile_timer {
        Some(t) => timer_wf(t) && t.period_ms == DELETE_PERIOD_MS,
        None => true,
    }
}

impl InputState {
    pub fn new() -> (s: InputState)
        ensures
            input_wf(s),
            s == (InputState {
                drag_start: None,
                dropping_items: false,
                dropping_items_timer: None,
                picking_items: false,
                picking_items_timer: None,
                deleting_tile: false,
                deleting_tile_timer: None,
                rotation: 0u8,
                item_in_hand: None,
            }),
    {
        InputState {
            drag_start: None,
            dropping_items: false,
            dropping_items_timer: None,
            picking_items: false,
            picking_items_timer: None,
            deleting_tile: false,
            deleting_tile_timer: None,
            rotation: 0,
            item_in_hand: None,
        }
    }
}

/// Whether a held-button action fires this frame: immediately on the first
/// frame (no timer yet), then once per period.
pub open spec fn spec_repeat_fires(t: Option<SimTimer>, dt: u64) -> bool {
    match t {
        None => true,
        Some(t) => t.elapsed_ms + dt >= t.period_ms,
    }
}

/// The repeat timer after a frame of a held button.
pub open spec fn spec_timer_after(t: Option<SimTimer>, dt: u64, period: u64) -> SimTimer {
    match t {
        None => SimTimer { elapsed_ms: 0, period_ms: period },
        Some(t) => SimTimer {
            elapsed_ms: ((t.elapsed_ms + dt) as u64 % t.period_ms) as u64,
            period_ms: t.period_ms,
        },
    }
}

/// Where a pointer-issued drop lands, matching the items' sprite anchor.
pub open spec fn spec_drop_at(pos: Pos) -> Pos {
    Pos { x: (pos.x + 8) as i64, y: (pos.y - 8) as i64 }
}

/// Effect of one frame of the held drop key: while the key is down the
/// action fires on the first frame and then once per period; each firing
/// takes one unit of the item in hand out of the inventory and drops it at
/// the pointer, and empties the hand once the last unit is gone.  Without
/// the key the timer is discarded and nothing else changes.
pub open spec fn drop_rel(
    w0: GameWorld,
    p0: Player,
    in0: InputState,
    pos: Pos,
    dt: u64,
    w1: GameWorld,
    p1: Player,
    in1: InputState,
) -> bool {
    &&& w1.grid == w0.grid
    &&& in1 == (InputState {
        dropping_items_timer: in1.dropping_items_timer,
        item_in_hand: in1.item_in_hand,
        ..in0
    })
    &&& if !in0.dropping_items {
        &&& in1.dropping_items_timer is None
        &&& in1.item_in_hand == in0.item_in_hand
        &&& w1.items == w0.items
        &&& p1 == p0
    } else {
        &&& in1.dropping_items_timer == Some(
            spec_timer_after(in0.dropping_items_timer, dt, ACTION_PERIOD_MS),
        )
        &&& if spec_repeat_fires(in0.dropping_items_timer, dt) {
            match in0.item_in_hand {
                Some(k) => {
                    &&& if p0.count(k) > 0 {
                        &&& w1.items.items@ == w0.items.items@.push(
                            DroppedItem { kind: k, pos: spec_drop_at(pos) },
                        )
                        &&& p1.count(k) == p0.count(k) - 1
                        &&& forall|k2: ItemKind| k2 != k ==> p1.count(k2) == p0.count(k2)
                        &&& p1.wf()
                        &&& in1.item_in_hand == if p0.count(k) == 1 {
                            None::<ItemKind>
                        } else {
                            Some(k)
                        }
                    } else {
                        &&& w1.items == w0.items
                        &&& p1 == p0
                        &&& in1.item_in_hand is None
                    }
                },
                None => {
                    &&& w1.items == w0.items
                    &&& p1 == p0
                    &&& in1.item_in_hand is None
                },
            }
        } else {
            &&& w1.items == w0.items
            &&& p1 == p0
            &&& in1.item_in_hand == in0.item_in_hand
        }
    }
}

/// One frame of the held drop key.
pub fn drop_held_items(
    world: &mut GameWorld,
    player: &mut Player,
    input: &mut InputState,
    pos: Pos,
    dt: u64,
)
    requires
        old(world).wf(),
        old(player).wf(),
        input_wf(*old(input)),
        mouse_in_range(pos),
        dt <= MAX_TIME_MS,
    ensures
        final(world).wf(),
        final(player).wf(),
        input_wf(*final(input)),
        drop_rel(
            *old(world),
            *old(player),
            *old(input),
            pos,
            dt,
            *final(world),
            *final(player),
            *final(input),
        ),
{
    if !input.dropping_items {
        input.dropping_items_timer = None;
        return ;
    }
    let fires: bool;
    match &mut input.dropping_items_timer {
        Some(t) => {
            fires = t.tick_repeating(dt);
        },
        None => {
            fires = true;
            input.dropping_items_timer = Some(SimTimer::new(ACTION_PERIOD_MS));
        },
    }
    if fires {
        match input.item_in_hand {
            Some(k) => {
                if player.decrement_inventory(k) {
                    world.items.spawn(DroppedItem { kind: k, pos: Pos { x: pos.x + 8, y: pos.y - 8 } });
                }
                if !player.has_item_in_inventory(k) {
                    input.item_in_hand = None;
                }
            },
            None => {},
        }
    }
}

/// Whether the item at index `j` lies under the pointer for a pickup: its
/// anchor-corrected position within half a cell of the pointer.
pub open spec fn pickable(items: Seq<DroppedItem>, pos: Pos, j: int) -> bool {
    euclid_sq(items[j].pos, spec_drop_at(pos)) < 256
}

/// Effect of one frame of the held pickup key: on each firing the first
/// item under the pointer moves from the ground into the inventory.
pub open spec fn pick_rel(
    w0: GameWorld,
    p0: Player,
    in0: InputState,
    pos: Pos,
    dt: u64,
    w1: GameWorld,
    p1: Player,
    in1: InputState,
) -> bool {
    &&& w1.grid == w0.grid
    &&& in1 == (InputState { picking_items_timer: in1.picking_items_timer, ..in0 })
    &&& if !in0.picking_items {
        &&& in1.picking_items_timer is None
        &&& w1.items == w0.items
        &&& p1 == p0
    } else {
        &&& in1.picking_items_timer == Some(
            spec_timer_after(in0.picking_items_timer, dt, ACTION_PERIOD_MS),
        )
        &&& if spec_repeat_fires(in0.picking_items_timer, dt) {
            ||| (exists|j: int|
                {
                    &&& 0 <= j < w0.items.items@.len()
                    &&& #[trigger] pickable(w0.items.items@, pos, j)
                    &&& forall|k: int| 0 <= k < j ==> !pickable(w0.items.items@, pos, k)
                    &&& w1.items.items@ == w0.items.items@.remove(j)
                    &&& p1.count(w0.items.items@[j].kind) == p0.count(w0.items.items@[j].kind) + 1
                    &&& forall|k2: ItemKind|
                        k2 != w0.items.items@[j].kind ==> p1.count(k2) == p0.count(k2)
                    &&& p1.wf()
                })
            ||| ((forall|j: int| 0 <= j < w0.items.items@.len() ==> !#[trigger] pickable(
                w0.items.items@,
                pos,
                j,
            )) && w1.items == w0.items && p1 == p0)
        } else {
            &&& w1.items == w0.items
            &&& p1 == p0
        }
    }
}

/// One frame of the held pickup key.
pub fn pick_up_items(
    world: &mut GameWorld,
    player: &mut Player,
    input: &mut InputState,
    pos: Pos,
    dt: u64,
)
    requires
        old(world).wf(),
        old(player).wf(),
        input_wf(*old(input)),
        mouse_in_range(pos),
        dt <= MAX_TIME_MS,
        forall|k: ItemKind| old(player).count(k) < usize::MAX,
    ensures
        final(world).wf(),
        final(player).wf(),
        input_wf(*final(input)),
        pick_rel(
            *old(world),
            *old(player),
            *old(input),
            pos,
            dt,
            *final(world),
            *final(player),
            *final(input),
        ),
{
    if !input.picking_items {
        input.picking_items_timer = None;
        return ;
    }
    let fires: bool;
    match &mut input.picking_items_timer {
        Some(t) => {
            fires = t.tick_repeating(dt);
        },
        None => {
            fires = true;
            input.picking_items_timer = Some(SimTimer::new(ACTION_PERIOD_MS));
        },
    }
    if fires {
        let target = Pos { x: pos.x + 8, y: pos.y - 8 };
        let ghost items0 = world.items.items@;
        match world.items.find_within_euclid(target, 16) {
            Some(j) => {
                proof {
                    assert(pickable(items0, pos, j as int));
                    assert forall|k: int| 0 <= k < j implies !pickable(items0, pos, k) by {}
                }
                let it = world.items.remove_item(j);
                player.increment_inventory(it.kind);
            },
            None => {
                proof {
                    assert forall|j: int| 0 <= j < items0.len() implies !pickable(
                        items0,
                        pos,
                        j,
                    ) by {}
                }
            },
        }
    }
}

/// Effect of one frame of the held delete button: it arms a repeat timer
/// on the first frame and fires once per period after that.  A firing
/// removes the machine at the pointed cell; if the cell holds no machine
/// but a resource tile, it drills one raw item of the matching kind out of
/// the tile and drops it at the pointer — the tile itself stays, so hand
/// drilling never exhausts a deposit.
pub open spec fn delete_rel(
    w0: GameWorld,
    in0: InputState,
    pos: Pos,
    dt: u64,
    w1: GameWorld,
    in1: InputState,
) -> bool {
    &&& w1.grid.resources@ == w0.grid.resources@
    &&& in1 == (InputState { deleting_tile_timer: in1.deleting_tile_timer, ..in0 })
    &&& if !in0.deleting_tile {
        &&& in1.deleting_tile_timer is None
        &&& w1.grid == w0.grid
        &&& w1.items == w0.items
    } else {
        &&& in1.deleting_tile_timer == Some(
            spec_timer_after(in0.deleting_tile_timer, dt, DELETE_PERIOD_MS),
        )
        &&& if in0.deleting_tile_timer is Some && spec_repeat_fires(in0.deleting_tile_timer, dt) {
            let c = spec_cell_of(pos);
            if spec_occupied(w0.grid.tiles@, c) {
                &&& (exists|i: int|
                    0 <= i < w0.grid.tiles@.len() && (#[trigger] w0.grid.tiles@[i]).coord == c
                        && w1.grid.tiles@ == w0.grid.tiles@.remove(i))
                &&& w1.items == w0.items
            } else {
                &&& w1.grid == w0.grid
                &&& if exists|r: ResourceKind| spec_resource_matches(w0.grid.resources@, c, r) {
                    exists|r: ResourceKind|
                        {
                            &&& #[trigger] spec_resource_matches(w0.grid.resources@, c, r)
                            &&& w1.items.items@ == w0.items.items@.push(
                                DroppedItem { kind: spec_resource_item(r), pos: spec_drop_at(pos) },
                            )
                        }
                } else {
                    w1.items == w0.items
                }
            }
        } else {
            &&& w1.grid == w0.grid
            &&& w1.items == w0.items
        }
    }
}

/// One frame of the held delete button.
pub fn delete_at_cursor(world: &mut GameWorld, input: &mut InputState, pos: Pos, dt: u64)
    requires
        old(world).wf(),
        input_wf(*old(input)),
        mouse_in_range(pos),
        dt <= MAX_TIME_MS,
    ensures
        final(world).wf(),
        input_wf(*final(input)),
        delete_rel(*old(world), *old(input), pos, dt, *final(world), *final(input)),
{
    if !input.deleting_tile {
        input.deleting_tile_timer = None;
        return ;
    }
    let fires: bool;
    match &mut input.deleting_tile_timer {
        Some(t) => {
            fires = t.tick_repeating(dt);
        },
        None => {
            fires = false;
            input.deleting_tile_timer = Some(SimTimer::new(DELETE_PERIOD_MS));
        },
    }
    if fires {
        let c = cell_of_pos(pos);
        let ghost tiles0 = world.grid.tiles@;
        match world.grid.remove(c) {
            Some(t) => {
                proof {
                    let i = choose|i: int|
                        0 <= i < tiles0.len() && t == tiles0[i] && world.grid.tiles@ == tiles0.remove(
                            i,
                        );
                    assert((tiles0[i]).coord == c && world.grid.tiles@ == tiles0.remove(i));
                }
            },
            None => {
                match world.grid.resource_at(c) {
                    Some(r) => {
                        proof {
                            assert(spec_resource_matches(world.grid.resources@, c, r));
                        }
                        world.items.spawn(
                            DroppedItem {
                                kind: resource_item(r),
                                pos: Pos { x: pos.x + 8, y: pos.y - 8 },
                            },
                        );
                    },
                    None => {
                        proof {
                            assert forall|r: ResourceKind| !spec_resource_matches(
                                world.grid.resources@,
                                c,
                                r,
                            ) by {
                                assert(!world.grid.resource_matches(c, r));
                            }
                        }
                    },
                }
            },
        }
    }
}

/// Truncating division, the rounding the drag sampler uses.
pub open spec fn div_trunc(a: int, b: int) -> int {
    if a >= 0 {
        a / b
    } else {
        -((-a) / b)
    }
}

/// How many segments a drag from `ds` to `pos` is split into: ten samples
/// per cell of Chebyshev distance, at least one, so no cell under the path
/// is skipped at typical drag speed.
pub open spec fn spec_drag_steps(ds: Pos, pos: Pos) -> int {
    cheb(ds, pos) * 10 / 32 + 1
}

/// The `i`-th sampled point of the drag segment.
pub open spec fn spec_sample(ds: Pos, pos: Pos, steps: int, i: int) -> Pos {
    Pos {
        x: (ds.x + div_trunc(i * (pos.x - ds.x), steps)) as i64,
        y: (ds.y + div_trunc(i * (pos.y - ds.y), steps)) as i64,
    }
}

/// The kind of the resource tile at `c`, if any.
pub open spec fn spec_resource_kind_at(resources: Seq<ResourceTile>, c: Coord) -> Option<
    ResourceKind,
> {
    if exists|r: ResourceKind| spec_resource_matches(resources, c, r) {
        Some(choose|r: ResourceKind| spec_resource_matches(resources, c, r))
    } else {
        None
    }
}

/// The machine a placement at `c` creates: the player's rotation, and the
/// kind-specific behavioral state — a miner binds to the resource beneath
/// it (or stays inert on bare ground), an inserter's arm starts at rest at
/// its back endpoint, a furnace starts empty.
pub open spec fn spec_new_machine(
    mk: MachineKind,
    rotation: u8,
    c: Coord,
    resources: Seq<ResourceTile>,
) -> PlacedTile {
    PlacedTile {
        kind: mk,
        rotation,
        coord: c,
        behavior: match mk {
            MachineKind::Belt => Behavior::Transport,
            MachineKind::Miner => match spec_resource_kind_at(resources, c) {
                Some(r) => Behavior::Producer(
                    ProducerState {
                        timer: SimTimer { elapsed_ms: 0, period_ms: MINER_PERIOD_MS },
                        resource: r,
                    },
                ),
                None => Behavior::Inert,
            },
            MachineKind::Inserter => Behavior::Arm(
                ArmState { progress: ARM_SWEEP, to_front: false, carrying: None },
            ),
            MachineKind::Furnace => Behavior::Processor(
                ProcessorState {
                    timer: SimTimer { elapsed_ms: 0, period_ms: FURNACE_PERIOD_MS },
                    input: None,
                    output: None,
                },
            ),
        },
    }
}

/// The drag-placement fold from sample `i` on: each sampled cell that is
/// free gets a machine while the inventory budget lasts.
pub open spec fn spec_drag_fold(
    tiles: Seq<PlacedTile>,
    resources: Seq<ResourceTile>,
    mk: MachineKind,
    rotation: u8,
    ds: Pos,
    pos: Pos,
    steps: int,
    i: int,
    budget: int,
) -> (Seq<PlacedTile>, int)
    decreases steps + 1 - i,
{
    if i < 0 || i > steps {
        (tiles, budget)
    } else {
        let c = spec_cell_of(spec_sample(ds, pos, steps, i));
        if !spec_occupied(tiles, c) && budget > 0 {
            spec_drag_fold(
                tiles.push(spec_new_machine(mk, rotation, c, resources)),
                resources,
                mk,
                rotation,
                ds,
                pos,
                steps,
                i + 1,
                budget - 1,
            )
        } else {
            spec_drag_fold(tiles, resources, mk, rotation, ds, pos, steps, i + 1, budget)
        }
    }
}

/// A drag sample that lands on an occupied cell is a silent no-op: the
/// machine already there stays, no new machine appears, and the inventory
/// budget is untouched — the placement continues with the next sample as
/// if this one had not been taken.
pub proof fn lemma_drag_fold_skips_occupied(
    tiles: Seq<PlacedTile>,
    resources: Seq<ResourceTile>,
    mk: MachineKind,
    rotation: u8,
    ds: Pos,
    pos: Pos,
    steps: int,
    i: int,
    budget: int,
)
    requires
        0 <= i <= steps,
        spec_occupied(tiles, spec_cell_of(spec_sample(ds, pos, steps, i))),
    ensures
        spec_drag_fold(tiles, resources, mk, rotation, ds, pos, steps, i, budget)
            == spec_drag_fold(tiles, resources, mk, rotation, ds, pos, steps, i + 1, budget),
{
}

/// Effect of drag placement: with a drag in progress and a placeable item
/// in hand, the segment from the drag start to the pointer is sampled
/// densely; every sampled cell that is unoccupied costs one unit of the
/// held kind from the inventory and receives a machine of that kind with
/// the player's rotation.  Occupied cells and an empty inventory are
/// silent no-ops.
pub open spec fn drag_rel(
    w0: GameWorld,
    p0: Player,
    in0: InputState,
    pos: Pos,
    w1: GameWorld,
    p1: Player,
) -> bool {
    &&& w1.grid.resources@ == w0.grid.resources@
    &&& w1.items == w0.items
    &&& match (in0.drag_start, in0.item_in_hand) {
        (Some(ds), Some(k)) => match spec_machine_for_item(k) {
            Some(mk) => {
                let steps = spec_drag_steps(ds, pos);
                let (tiles1, b1) = spec_drag_fold(
                    w0.grid.tiles@,
                    w0.grid.resources@,
                    mk,
                    in0.rotation,
                    ds,
                    pos,
                    steps,
                    0,
                    p0.count(k),
                );
                &&& w1.grid.tiles@ == tiles1
                &&& p1.count(k) == b1
                &&& forall|k2: ItemKind| k2 != k ==> p1.count(k2) == p0.count(k2)
                &&& p1.wf()
            },
            None => w1.grid == w0.grid && p1 == p0,
        },
        _ => w1.grid == w0.grid && p1 == p0,
    }
}

/// The `i`-th sampled point of a drag, computed as the sampler rounds.
fn sample_point(ds: Pos, pos: Pos, steps: i64, i: i64) -> (p: Pos)
    requires
        mouse_in_range(ds),
        mouse_in_range(pos),
        0 < steps <= 0x200_0000,
        0 <= i <= steps,
    ensures
        p == spec_sample(ds, pos, steps as int, i as int),
        mouse_in_range(p),
{
    let dx = pos.x - ds.x;
    let dy = pos.y - ds.y;
    proof {
        lemma_mul_bound(i as int, dx as int, steps as int);
        lemma_mul_bound(i as int, dy as int, steps as int);
    }
    let nx = i * dx;
    let ny = i * dy;
    let sx = if nx >= 0 {
        nx / steps
    } else {
        -((-nx) / steps)
    };
    let sy = if ny >= 0 {
        ny / steps
    } else {
        -((-ny) / steps)
    };
    proof {
        lemma_sample_in_range(ds.x as int, pos.x as int, sx as int, i as int, steps as int);
        lemma_sample_in_range(ds.y as int, pos.y as int, sy as int, i as int, steps as int);
    }
    Pos { x: ds.x + sx, y: ds.y + sy }
}

/// `|i * d|` is bounded both absolutely and relative to `steps`.
proof fn lemma_mul_bound(i: int, d: int, steps: int)
    requires
        0 <= i <= steps,
        -2 * MOUSE_LIMIT <= d <= 2 * MOUSE_LIMIT,
        steps <= 0x200_0000,
    ensures
        -0x200_0000 * 2 * MOUSE_LIMIT <= i * d <= 0x200_0000 * 2 * MOUSE_LIMIT,
        -steps * (2 * MOUSE_LIMIT) <= i * d <= steps * (2 * MOUSE_LIMIT),
{
    assert(-0x200_0000 * 2 * MOUSE_LIMIT <= i * d <= 0x200_0000 * 2 * MOUSE_LIMIT
        && -steps * (2 * MOUSE_LIMIT) <= i * d <= steps * (2 * MOUSE_LIMIT))
        by (nonlinear_arith)
        requires 0 <= i <= steps, -2 * MOUSE_LIMIT <= d <= 2 * MOUSE_LIMIT, steps <= 0x200_0000;
}

/// A sampled offset stays between the endpoints' offsets, so samples stay
/// within the pointer range.
proof fn lemma_sample_in_range(s: int, e: int, off: int, i: int, steps: int)
    requires
        -MOUSE_LIMIT <= s <= MOUSE_LIMIT,
        -MOUSE_LIMIT <= e <= MOUSE_LIMIT,
        0 <= i <= steps,
        0 < steps,
        off == div_trunc(i * (e - s), steps),
    ensures
        -MOUSE_LIMIT <= s + off <= MOUSE_LIMIT,
{
    let d = e - s;
    if d >= 0 {
        assert(0 <= i * d <= steps * d) by (nonlinear_arith)
            requires 0 <= i <= steps, d >= 0;
        assert(0 <= (i * d) / steps <= d) by (nonlinear_arith)
            requires 0 < steps, 0 <= i * d <= steps * d, d >= 0;
    } else {
        assert(0 <= i * (-d) <= steps * (-d)) by (nonlinear_arith)
            requires 0 <= i <= steps, d < 0;
        assert(0 <= (i * (-d)) / steps <= -d) by (nonlinear_arith)
            requires 0 < steps, 0 <= i * (-d) <= steps * (-d), d < 0;
        assert(i * (-d) == -(i * d)) by (nonlinear_arith);
    }
}

/// Drag placement for one frame.
pub fn drag_place(world: &mut GameWorld, player: &mut Player, input: &InputState, pos: Pos)
    requires
        old(world).wf(),
        old(player).wf(),
        input_wf(*input),
        mouse_in_range(pos),
    ensures
        final(world).wf(),
        final(player).wf(),
        drag_rel(*old(world), *old(player), *input, pos, *final(world), *final(player)),
{
    let (ds, k) = match (input.drag_start, input.item_in_hand) {
        (Some(ds), Some(k)) => (ds, k),
        _ => {
            return ;
        },
    };
    let mk = match machine_for_item(k) {
        Some(mk) => mk,
        None => {
            return ;
        },
    };
    let dist = cheb_dist(ds, pos);
    let steps = dist * 10 / 32 + 1;
    let ghost goal = spec_drag_fold(
        old(world).grid.tiles@,
        old(world).grid.resources@,
        mk,
        input.rotation,
        ds,
        pos,
        steps as int,
        0,
        old(player).count(k),
    );
    let mut i: i64 = 0;
    while i <= steps
        invariant
            world.wf(),
            player.wf(),
            input_wf(*input),
            mouse_in_range(pos),
            mouse_in_range(ds),
            input.item_in_hand == Some(k),
            spec_machine_for_item(k) == Some(mk),
            0 < steps <= 0x200_0000,
            0 <= i <= steps + 1,
            world.grid.resources@ == old(world).grid.resources@,
            world.items == old(world).items,
            spec_drag_fold(
                world.grid.tiles@,
                world.grid.resources@,
                mk,
                input.rotation,
                ds,
                pos,
                steps as int,
                i as int,
                player.count(k),
            ) == goal,
            forall|k2: ItemKind| k2 != k ==> player.count(k2) == old(player).count(k2),
        decreases steps + 1 - i,
    {
        let ghost pre_tiles = world.grid.tiles@;
        let ghost pre_count = player.count(k);
        let sp = sample_point(ds, pos, steps, i);
        let c = cell_of_pos(sp);
        match world.grid.find_tile(c) {
            Some(_) => {},
            None => {
                if player.decrement_inventory(k) {
                    let behavior = match mk {
                        MachineKind::Belt => Behavior::Transport,
                        MachineKind::Miner => match world.grid.resource_at(c) {
                            Some(r) => {
                                proof {
                                    assert(spec_resource_kind_at(world.grid.resources@, c)
                                        == Some(r)) by {
                                        let r2 = choose|r2: ResourceKind|
                                            spec_resource_matches(world.grid.resources@, c, r2);
                                        assert(spec_resource_matches(world.grid.resources@, c, r));
                                    }
                                }
                                Behavior::Producer(
                                    ProducerState { timer: SimTimer::new(MINER_PERIOD_MS), resource: r },
                                )
                            },
                            None => {
                                proof {
                                    assert forall|r2: ResourceKind| !spec_resource_matches(
                                        world.grid.resources@,
                                        c,
                                        r2,
                                    ) by {
                                        assert(!world.grid.resource_matches(c, r2));
                                    }
                                }
                                Behavior::Inert
                            },
                        },
                        MachineKind::Inserter => Behavior::Arm(
                            ArmState { progress: ARM_SWEEP, to_front: false, carrying: None },
                        ),
                        MachineKind::Furnace => Behavior::Processor(
                            ProcessorState {
                                timer: SimTimer::new(FURNACE_PERIOD_MS),
                                input: None,
                                output: None,
                            },
                        ),
                    };
                    let tile = PlacedTile { kind: mk, rotation: input.rotation, coord: c, behavior };
                    proof {
                        assert(coord_in_range(c));
                        assert(tile == spec_new_machine(
                            mk,
                            input.rotation,
                            c,
                            world.grid.resources@,
                        ));
                    }
                    let placed = world.grid.place(tile);
                    proof {
                        assert(placed);
                    }
                }
            },
        }
        i = i + 1;
    }
}

/// One variable-rate frame of player actions at the pointer: dropping
/// items, picking items up, deleting, and drag placement — in that order,
/// each step seeing the previous step's state.  Without a pointer
/// position nothing at all happens.
pub fn handle_player_actions(
    world: &mut GameWorld,
    player: &mut Player,
    input: &mut InputState,
    mouse: Option<Pos>,
    dt: u64,
)
    requires
        old(world).wf(),
        old(player).wf(),
        input_wf(*old(input)),
        dt <= MAX_TIME_MS,
        match mouse {
            Some(pos) => mouse_in_range(pos),
            None => true,
        },
        forall|k: ItemKind| old(player).count(k) < usize::MAX,
    ensures
        final(world).wf(),
        final(player).wf(),
        input_wf(*final(input)),
        final(world).grid.resources@ == old(world).grid.resources@,
        match mouse {
            None => {
                &&& *final(world) == *old(world)
                &&& *final(player) == *old(player)
                &&& *final(input) == *old(input)
            },
            Some(pos) => exists|
                w1: GameWorld,
                p1: Player,
                in1: InputState,
                w2: GameWorld,
                p2: Player,
                in2: InputState,
                w3: GameWorld,
                in3: InputState,
            |
                {
                    &&& #[trigger] drop_rel(
                        *old(world),
                        *old(player),
                        *old(input),
                        pos,
                        dt,
                        w1,
                        p1,
                        in1,
                    )
                    &&& #[trigger] pick_rel(w1, p1, in1, pos, dt, w2, p2, in2)
                    &&& #[trigger] delete_rel(w2, in2, pos, dt, w3, in3)
                    &&& drag_rel(w3, p2, in3, pos, *final(world), *final(player))
                    &&& *final(input) == in3
                },
        },
{
    let pos = match mouse {
        Some(pos) => pos,
        None => {
            return ;
        },
    };
    drop_held_items(world, player, input, pos, dt);
    let ghost w1 = *world;
    let ghost p1 = *player;
    let ghost in1 = *input;
    pick_up_items(world, player, input, pos, dt);
    let ghost w2 = *world;
    let ghost p2 = *player;
    let ghost in2 = *input;
    delete_at_cursor(world, input, pos, dt);
    let ghost w3 = *world;
    let ghost in3 = *input;
    drag_place(world, player, &*input, pos);
    proof {
        assert(drop_rel(*old(world), *old(player), *old(input), pos, dt, w1, p1, in1));
        assert(pick_rel(w1, p1, in1, pos, dt, w2, p2, in2));
        assert(delete_rel(w2, in2, pos, dt, w3, in3));
    }
}

/// What the build preview should show: with the pointer over the world
/// and a placeable item in hand, the hovered cell, the machine kind and
/// the current rotation — but only over an unoccupied cell.
pub fn update_preview_tile(world: &GameWorld, input: &InputState, mouse: Option<Pos>) -> (r:
    Option<(Coord, MachineKind, u8)>)
    requires
        world.wf(),
        match mouse {
            Some(pos) => mouse_in_range(pos),
            None => true,
        },
    ensures
        ({
            match (mouse, input.item_in_hand) {
                (Some(pos), Some(k)) => match spec_machine_for_item(k) {
                    Some(mk) => r == if !world.grid.occupied(spec_cell_of(pos)) {
                        Some((spec_cell_of(pos), mk, input.rotation))
                    } else {
                        None::<(Coord, MachineKind, u8)>
                    },
                    None => r is None,
                },
                _ => r is None,
            }
        }),
{
    let pos = match mouse {
        Some(pos) => pos,
        None => {
            return None;
        },
    };
    let k = match input.item_in_hand {
        Some(k) => k,
        None => {
            return None;
        },
    };
    let mk = match machine_for_item(k) {
        Some(mk) => mk,
        None => {
            return None;
        },
    };
    let c = cell_of_pos(pos);
    match world.grid.find_tile(c) {
        Some(_) => None,
        None => Some((c, mk, input.rotation)),
    }
}

/// Apply one frame of mouse-button state: holding the left button drags
/// from the pointer, holding the right button deletes; with the pointer
/// outside the window any drag in progress ends.
pub fn mouse_button_events(
    input: &mut InputState,
    mouse: Option<Pos>,
    left_held: bool,
    right_held: bool,
)
    requires
        input_wf(*old(input)),
        match mouse {
            Some(pos) => mouse_in_range(pos),
            None => true,
        },
    ensures
        input_wf(*final(input)),
        ({
            match mouse {
                Some(pos) => *final(input) == (InputState {
                    drag_start: if left_held {
                        Some(pos)
                    } else {
                        None
                    },
                    deleting_tile: right_held,
                    ..*old(input)
                }),
                None => *final(input) == (InputState { drag_start: None, ..*old(input) }),
            }
        }),
{
    match mouse {
        Some(pos) => {
            if left_held {
                input.drag_start = Some(pos);
            } else {
                input.drag_start = None;
            }
            input.deleting_tile = right_held;
        },
        None => {
            // The pointer is outside the window.
            input.drag_start = None;
        },
    }
}

/// A discrete key edge the input layer reports to the simulation.
#[derive(Clone, Copy, PartialEq, Eq, Structural, Debug)]
pub enum KeyCommand {
    /// Turn the build rotation a quarter turn.
    RotateHand,
    /// Put a machine kind into the hand.
    SelectBelt,
    SelectMiner,
    SelectInserter,
    SelectFurnace,
    /// Empty the hand.
    ClearHand,
}

/// Apply one key edge to the input state: rotation cycles through the
/// four quarter turns, the select keys put the matching placeable kind in
/// hand, and clearing empties it.
pub fn apply_key_command(input: &mut InputState, cmd: KeyCommand)
    requires
        input_wf(*old(input)),
    ensures
        input_wf(*final(input)),
        ({
            match cmd {
                KeyCommand::RotateHand => *final(input) == (InputState {
                    rotation: ((old(input).rotation + 1) % 4) as u8,
                    ..*old(input)
                }),
                KeyCommand::SelectBelt => *final(input) == (InputState {
                    item_in_hand: Some(ItemKind::Belt),
                    ..*old(input)
                }),
                KeyCommand::SelectMiner => *final(input) == (InputState {
                    item_in_hand: Some(ItemKind::Miner),
                    ..*old(input)
                }),
                KeyCommand::SelectInserter => *final(input) == (InputState {
                    item_in_hand: Some(ItemKind::Inserter),
                    ..*old(input)
                }),
                KeyCommand::SelectFurnace => *final(input) == (InputState {
                    item_in_hand: Some(ItemKind::Furnace),
                    ..*old(input)
                }),
                KeyCommand::ClearHand => *final(input) == (InputState {
                    item_in_hand: None,
                    ..*old(input)
                }),
            }
        }),
{
    match cmd {
        KeyCommand::RotateHand => {
            input.rotation = (input.rotation + 1) % 4;
        },
        KeyCommand::SelectBelt => {
            input.item_in_hand = Some(ItemKind::Belt);
        },
        KeyCommand::SelectMiner => {
            input.item_in_hand = Some(ItemKind::Miner);
        },
        KeyCommand::SelectInserter => {
            input.item_in_hand = Some(ItemKind::Inserter);
        },
        KeyCommand::SelectFurnace => {
            input.item_in_hand = Some(ItemKind::Furnace);
        },
        KeyCommand::ClearHand => {
            input.item_in_hand = None;
        },
    }
}

/// A click on an inventory slot puts that slot's kind into the player's
/// hand; clicks outside the filled slots change nothing.
pub fn hanle_player_inventory_ui_events(
    input: &mut InputState,
    player: &Player,
    clicked_slot: Option<usize>,
)
    requires
        input_wf(*old(input)),
    ensures
        input_wf(*final(input)),
        ({
            match clicked_slot {
                Some(idx) => if idx < player.inventory@.len() {
                    *final(input) == (InputState {
                        item_in_hand: Some(player.inventory@[idx as int].0),
                        ..*old(input)
                    })
                } else {
                    *final(input) == *old(input)
                },
                None => *final(input) == *old(input),
            }
        }),
{
    match clicked_slot {
        Some(idx) => {
            if idx < player.inventory.len() {
                let (k, _) = player.inventory[idx];
                input.item_in_hand = Some(k);
            }
        },
        None => {},
    }
}

} // verus!
