//! The miner phase: each producer ticks its countdown and, on expiry,
//! emits one item of its bound resource beside itself — unless the
//! resource tile was mined away or the spawn point is blocked.

use vstd::prelude::*;
use crate::geom::{
    Coord, Pos, coord_in_range, dir_step, dir_x, dir_y, pos_in_range,
};
use crate::grid::{
    Behavior, MINER_PERIOD_MS, PlacedTile, ProducerState, ResourceTile, spec_resource_matches,
};
use crate::items::{DroppedItem, spec_blocked_at, spec_separated};
use crate::kinds::{resource_item, spec_resource_item};
use crate::timer::{MAX_TIME_MS, sum_of};
use crate::world::GameWorld;

verus! {

/// Where a miner's output appears: offset from the tile center a quarter
/// cell across the facing and three quarters of a cell along it.
pub open spec fn spec_miner_spawn_pos(c: Coord, rotation: u8) -> Pos {
    Pos {
        x: (32 * c.x + 8 + 24 * dir_x(rotation)) as i64,
        y: (32 * c.y - 8 + 24 * dir_y(rotation)) as i64,
    }
}

pub fn miner_spawn_pos(c: Coord, rotation: u8) -> (p: Pos)
    requires
        coord_in_range(c),
        rotation < 4,
    ensures
        p == spec_miner_spawn_pos(c, rotation),
        pos_in_range(p),
{
    let (dx, dy) = dir_step(rotation);
    Pos { x: 32 * c.x + 8 + 24 * dx, y: 32 * c.y - 8 + 24 * dy }
}

/// A miner's countdown after one tick: reset to the full period the moment
/// it expires, so stalls never shorten the next cycle.
pub open spec fn spec_miner_step_tile(t: PlacedTile, dt: u64) -> PlacedTile {
    match t.behavior {
        Behavior::Producer(ps) => {
            let expired = ps.timer.elapsed_ms + dt >= ps.timer.period_ms;
            let elapsed = if expired {
                0u64
            } else {
                (ps.timer.elapsed_ms + dt) as u64
            };
            PlacedTile {
                behavior: Behavior::Producer(
                    ProducerState {
                        timer: crate::timer::SimTimer { elapsed_ms: elapsed, ..ps.timer },
                        ..ps
                    },
                ),
                ..t
            }
        },
        _ => t,
    }
}

/// The item a miner emits this tick, if any: its countdown expired, a
/// resource tile matching its binding still lies beneath it, and no item
/// sits within the minimum separation of the spawn point.
pub open spec fn spec_miner_emits(
    t: PlacedTile,
    resources: Seq<ResourceTile>,
    items: Seq<DroppedItem>,
    dt: u64,
) -> Option<DroppedItem> {
    match t.behavior {
        Behavior::Producer(ps) => {
            let expired = ps.timer.elapsed_ms + dt >= ps.timer.period_ms;
            let pos = spec_miner_spawn_pos(t.coord, t.rotation);
            if expired && spec_resource_matches(resources, t.coord, ps.resource)
                && !spec_blocked_at(items, pos) {
                Some(DroppedItem { kind: spec_resource_item(ps.resource), pos })
            } else {
                None
            }
        },
        _ => None,
    }
}

/// The miner phase folded over the machines from index `i` on: each miner
/// steps its timer and possibly appends one item, in machine order, each
/// spawn checked against the items already present — including those
/// emitted earlier in the same tick.
pub open spec fn spec_miner_phase(
    tiles: Seq<PlacedTile>,
    resources: Seq<ResourceTile>,
    items: Seq<DroppedItem>,
    dt: u64,
    i: int,
) -> (Seq<PlacedTile>, Seq<DroppedItem>)
    decreases tiles.len() - i,
{
    if i < 0 || i >= tiles.len() {
        (tiles, items)
    } else {
        let stepped = spec_miner_step_tile(tiles[i], dt);
        let items2 = match spec_miner_emits(tiles[i], resources, items, dt) {
            Some(it) => items.push(it),
            None => items,
        };
        spec_miner_phase(tiles.update(i, stepped), resources, items2, dt, i + 1)
    }
}

/// One producer-countdown step: advanced by `dt`, reset to the full
/// period — that is, to zero elapsed — the moment it expires.
pub open spec fn spec_countdown_step(e: u64, period: u64, dt: u64) -> u64 {
    if e + dt >= period {
        0u64
    } else {
        (e + dt) as u64
    }
}

/// The countdown's value and its number of expiries over `n` ticks of
/// `dt` milliseconds each.
pub open spec fn spec_countdown_run(e: u64, period: u64, dt: u64, n: nat) -> (u64, int)
    decreases n,
{
    if n == 0 {
        (e, 0)
    } else {
        let fired: int = if e + dt >= period {
            1
        } else {
            0
        };
        let rest = spec_countdown_run(spec_countdown_step(e, period, dt), period, dt, (n - 1) as nat);
        (rest.0, rest.1 + fired)
    }
}

/// Miner cadence: with the tick delta dividing the production period, the
/// countdown expires exactly once per period of simulated time — over `n`
/// ticks, exactly `n * dt / period` times, and never more than once per
/// tick.  A miner over a matching resource tile with a clear spawn point
/// emits exactly one item per expiry, so such a miner emits one item per
/// period and never two in one tick.
pub proof fn lemma_miner_cadence(e: u64, period: u64, dt: u64, n: nat)
    requires
        1 <= dt <= period,
        period % dt == 0,
        e < period,
        e % dt == 0,
    ensures
        spec_countdown_run(e, period, dt, n).1 == (e + n * dt) / (period as int),
        spec_countdown_run(e, period, dt, n).0 == (e + n * dt) % (period as int),
    decreases n,
{
    let p = period as int;
    if n == 0 {
        assert(e as int / p == 0 && e as int % p == e as int) by (nonlinear_arith)
            requires 0 <= (e as int) < p;
    } else {
        let q = e as int / dt as int;
        let m = p / dt as int;
        assert(e == dt * q && p == dt * m) by (nonlinear_arith)
            requires
                dt >= 1,
                e % dt == 0,
                period % dt == 0,
                q == e as int / dt as int,
                m == p / dt as int,
                p == period as int;
        assert(e + dt <= p) by (nonlinear_arith)
            requires dt >= 1, e == dt * q, p == dt * m, (e as int) < p;
        assert(n * dt == (n - 1) * dt + dt) by (nonlinear_arith)
            requires n >= 1;
        if e + dt >= period {
            assert(e + dt == p);
            lemma_miner_cadence(0, period, dt, (n - 1) as nat);
            let x = (n - 1) * dt;
            assert((p + x) / p == 1 + x / p && (p + x) % p == x % p) by (nonlinear_arith)
                requires p >= 1, x >= 0;
        } else {
            assert((e + dt) as int % (dt as int) == 0) by (nonlinear_arith)
                requires dt >= 1, e == dt * q;
            lemma_miner_cadence((e + dt) as u64, period, dt, (n - 1) as nat);
        }
    }
}

/// The countdown's value and its number of expiries over an arbitrary
/// sequence of tick deltas.
pub open spec fn spec_countdown_run_seq(e: u64, period: u64, dts: Seq<u64>) -> (u64, int)
    decreases dts.len(),
{
    if dts.len() == 0 {
        (e, 0)
    } else {
        let fired: int = if e + dts[0] >= period {
            1
        } else {
            0
        };
        let rest = spec_countdown_run_seq(
            spec_countdown_step(e, period, dts[0]),
            period,
            dts.drop_first(),
        );
        (rest.0, rest.1 + fired)
    }
}

/// Miner cadence, upper half, for every sequence of tick deltas: the
/// countdown never expires faster than once per period of simulated time,
/// so a miner never emits more than one item per period (nor more than
/// one per tick), whatever the frame timing.
pub proof fn lemma_miner_cadence_upper(e: u64, period: u64, dts: Seq<u64>)
    requires
        period >= 1,
        e <= period,
    ensures
        spec_countdown_run_seq(e, period, dts).1 * period <= e + sum_of(dts),
        spec_countdown_run_seq(e, period, dts).1 <= dts.len(),
    decreases dts.len(),
{
    if dts.len() > 0 {
        let e2 = spec_countdown_step(e, period, dts[0]);
        lemma_miner_cadence_upper(e2, period, dts.drop_first());
        let rest = spec_countdown_run_seq(e2, period, dts.drop_first());
        if e + dts[0] >= period {
            assert((rest.1 + 1) * period == rest.1 * period + period) by (nonlinear_arith);
        }
    }
}

/// The miner phase drives each producer's countdown exactly as
/// `spec_countdown_step` does, and emits only on an expiry — so the
/// cadence of `lemma_miner_cadence` is the cadence of the items a miner
/// with a matching resource and a clear spawn point produces.
pub proof fn lemma_miner_step_matches_countdown(
    t: PlacedTile,
    resources: Seq<ResourceTile>,
    items: Seq<DroppedItem>,
    dt: u64,
)
    requires
        t.behavior is Producer,
    ensures
        ({
            let ps = t.behavior->Producer_0;
            let stepped = spec_miner_step_tile(t, dt);
            &&& stepped.behavior->Producer_0.timer.elapsed_ms == spec_countdown_step(
                ps.timer.elapsed_ms,
                ps.timer.period_ms,
                dt,
            )
            &&& spec_miner_emits(t, resources, items, dt) is Some ==> ps.timer.elapsed_ms + dt
                >= ps.timer.period_ms
            &&& (ps.timer.elapsed_ms + dt >= ps.timer.period_ms && spec_resource_matches(
                resources,
                t.coord,
                ps.resource,
            ) && !spec_blocked_at(items, spec_miner_spawn_pos(t.coord, t.rotation)))
                ==> spec_miner_emits(t, resources, items, dt) is Some
        }),
{
}

/// In the miner phase each machine's state depends only on its own
/// previous state: machine `j` ends as `spec_miner_step_tile(tiles[j])`.
/// In particular a producer whose countdown expires has it reset whether
/// or not anything was emitted — a blocked output is forfeited, never
/// queued.
pub proof fn lemma_miner_phase_tiles_pointwise(
    tiles: Seq<PlacedTile>,
    resources: Seq<ResourceTile>,
    items: Seq<DroppedItem>,
    dt: u64,
    i: int,
)
    requires
        0 <= i <= tiles.len(),
    ensures
        ({
            let (tiles2, items2) = spec_miner_phase(tiles, resources, items, dt, i);
            &&& tiles2.len() == tiles.len()
            &&& forall|j: int| 0 <= j < i ==> tiles2[j] == #[trigger] tiles[j]
            &&& forall|j: int|
                i <= j < tiles.len() ==> tiles2[j] == spec_miner_step_tile(
                    #[trigger] tiles[j],
                    dt,
                )
        }),
    decreases tiles.len() - i,
{
    if i < tiles.len() {
        let stepped = spec_miner_step_tile(tiles[i], dt);
        let up = tiles.update(i, stepped);
        let items2 = match spec_miner_emits(tiles[i], resources, items, dt) {
            Some(it) => items.push(it),
            None => items,
        };
        lemma_miner_phase_tiles_pointwise(up, resources, items2, dt, i + 1);
        let tiles2 = spec_miner_phase(tiles, resources, items, dt, i).0;
        assert(tiles2 == spec_miner_phase(up, resources, items2, dt, i + 1).0);
        assert forall|j: int| 0 <= j < i implies tiles2[j] == #[trigger] tiles[j] by {
            assert(up[j] == tiles[j]);
        }
        assert forall|j: int| i <= j < tiles.len() implies tiles2[j] == spec_miner_step_tile(
            #[trigger] tiles[j],
            dt,
        ) by {
            if j == i {
                assert(tiles2[j] == up[j]);
            } else {
                assert(up[j] == tiles[j]);
            }
        }
    }
}

/// Miners hold no cargo: the miner phase leaves every machine's cargo —
/// and so the total cargo held inside machines — unchanged; it only adds
/// freshly produced items to the ground.
pub proof fn lemma_miner_phase_cargo(
    tiles: Seq<PlacedTile>,
    resources: Seq<ResourceTile>,
    items: Seq<DroppedItem>,
    dt: u64,
    i: int,
)
    requires
        0 <= i <= tiles.len(),
    ensures
        ({
            let (tiles2, items2) = spec_miner_phase(tiles, resources, items, dt, i);
            &&& crate::world::machine_cargo(tiles2) == crate::world::machine_cargo(tiles)
            &&& items2.len() >= items.len()
        }),
    decreases tiles.len() - i,
{
    if i < tiles.len() {
        let stepped = spec_miner_step_tile(tiles[i], dt);
        crate::world::lemma_machine_cargo_update(tiles, i, stepped);
        let items2 = match spec_miner_emits(tiles[i], resources, items, dt) {
            Some(it) => items.push(it),
            None => items,
        };
        lemma_miner_phase_cargo(tiles.update(i, stepped), resources, items2, dt, i + 1);
    }
}

/// One fixed tick of every miner, in machine order.  A miner emits at most
/// one item per tick; each emitted item respects the minimum separation
/// against every item present when it spawns, so a separated registry
/// stays separated.
pub fn update_miners(world: &mut GameWorld, dt: u64)
    requires
        old(world).wf(),
        dt <= MAX_TIME_MS,
    ensures
        final(world).wf(),
        ({
            let (tiles2, items2) = spec_miner_phase(
                old(world).grid.tiles@,
                old(world).grid.resources@,
                old(world).items.items@,
                dt,
                0,
            );
            final(world).grid.tiles@ == tiles2 && final(world).items.items@ == items2
        }),
        final(world).grid.resources@ == old(world).grid.resources@,
        spec_separated(old(world).items.items@) ==> spec_separated(final(world).items.items@),
{
    let ghost goal = spec_miner_phase(
        old(world).grid.tiles@,
        old(world).grid.resources@,
        old(world).items.items@,
        dt,
        0,
    );
    let n = world.grid.tiles.len();
    let mut i: usize = 0;
    while i < n
        invariant
            world.wf(),
            dt <= MAX_TIME_MS,
            n == world.grid.tiles@.len(),
            i <= n,
            world.grid.resources@ == old(world).grid.resources@,
            spec_miner_phase(
                world.grid.tiles@,
                world.grid.resources@,
                world.items.items@,
                dt,
                i as int,
            ) == goal,
            spec_separated(old(world).items.items@) ==> spec_separated(world.items.items@),
        decreases n - i,
    {
        let ghost pre_tiles = world.grid.tiles@;
        let ghost pre_items = world.items.items@;
        let t = world.grid.tiles[i];
        match t.behavior {
            Behavior::Producer(ps) => {
                let mut ps2 = ps;
                let expired = ps2.timer.tick(dt);
                if expired {
                    ps2.timer.reset();
                    let matched = match world.grid.resource_at(t.coord) {
                        Some(k) => k == ps.resource,
                        None => false,
                    };
                    proof {
                        assert(matched == world.grid.resource_matches(t.coord, ps.resource));
                    }
                    if matched {
                        let pos = miner_spawn_pos(t.coord, t.rotation);
                        let it = DroppedItem { kind: resource_item(ps.resource), pos };
                        world.items.spawn_if_clear(it);
                    }
                }
                let t2 = PlacedTile { behavior: Behavior::Producer(ps2), ..t };
                world.grid.tiles.set(i, t2);
                proof {
                    assert(t2 == spec_miner_step_tile(pre_tiles[i as int], dt));
                    assert(world.grid.tiles@ == pre_tiles.update(i as int, t2));
                    assert(world.items.items@ == match spec_miner_emits(
                        pre_tiles[i as int],
                        world.grid.resources@,
                        pre_items,
                        dt,
                    ) {
                        Some(it) => pre_items.push(it),
                        None => pre_items,
                    });
                }
            },
            _ => {
                proof {
                    assert(spec_miner_step_tile(pre_tiles[i as int], dt) == t);
                    assert(spec_miner_emits(
                        pre_tiles[i as int],
                        world.grid.resources@,
                        pre_items,
                        dt,
                    ) is None);
                    assert(world.grid.tiles@ =~= pre_tiles.update(i as int, t));
                }
            },
        }
        i = i + 1;
    }
}

} // verus!
