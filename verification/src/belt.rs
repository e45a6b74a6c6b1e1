//! The belt transport phase: every item standing on a belt's footprint is
//! carried one unit along the belt's facing and nudged toward the belt's
//! centerline, each axis of the move validated against the rule that no
//! other item may end up both within the minimum separation and closer
//! than it was.  All decisions read the pre-tick snapshot of positions.

use vstd::prelude::*;
use crate::geom::{
    MIN_ITEM_DIST, Pos, belt_cell_of, cheb, cheb_dist, clamp_unit, dir_x, dir_y, in_belt_rect,
    pos_in_range, spec_belt_cell_of,
};
use crate::grid::{
    PlacedTile, lemma_tile_index_unique, spec_occupied, spec_tile_index_at, tile_wf,
};
use crate::kinds::MachineKind;
use crate::items::DroppedItem;
use crate::world::GameWorld;

verus! {

/// The belt whose footprint holds an item at `p`, if the cell is occupied
/// by a belt at all.
pub open spec fn spec_belt_at(tiles: Seq<PlacedTile>, p: Pos) -> Option<PlacedTile> {
    let c = spec_belt_cell_of(p);
    if spec_occupied(tiles, c) {
        let t = tiles[spec_tile_index_at(tiles, c)];
        if t.kind is Belt {
            Some(t)
        } else {
            None
        }
    } else {
        None
    }
}

/// The displacement a belt asks of an item at `p` before validation: one
/// unit along the facing, and up to one unit of correction toward the
/// belt's centerline on the other axis, so items self-center on the lane.
pub open spec fn spec_raw_move(t: PlacedTile, p: Pos) -> (int, int) {
    if t.rotation == 0 || t.rotation == 2 {
        (dir_x(t.rotation), clamp_unit(32 * t.coord.y - p.y))
    } else {
        (clamp_unit(32 * t.coord.x - p.x), dir_y(t.rotation))
    }
}

/// The no-closer-than-before rule for one axis sub-move of item `i` to
/// `np`, judged against the snapshot: every other item must either stay
/// strictly outside the minimum separation, or at least as far away as it
/// was.
pub open spec fn spec_axis_move_ok(items: Seq<DroppedItem>, i: int, np: Pos) -> bool {
    forall|j: int|
        0 <= j < items.len() && j != i ==> {
            let d_after = cheb(np, (#[trigger] items[j]).pos);
            d_after > MIN_ITEM_DIST || d_after >= cheb(items[i].pos, items[j].pos)
        }
}

/// The move item `i` actually makes this tick: each axis of the raw belt
/// move is kept only if it passes the no-closer-than-before rule on its
/// own, so an item can still advance along one axis when the other axis's
/// correction would collide.
#[verifier::opaque]
pub open spec fn spec_committed_move(
    tiles: Seq<PlacedTile>,
    items: Seq<DroppedItem>,
    i: int,
) -> (int, int) {
    match spec_belt_at(tiles, items[i].pos) {
        None => (0, 0),
        Some(t) => {
            let p = items[i].pos;
            let (mx, my) = spec_raw_move(t, p);
            (
                if spec_axis_move_ok(items, i, Pos { x: (p.x + mx) as i64, y: p.y }) {
                    mx
                } else {
                    0
                },
                if spec_axis_move_ok(items, i, Pos { x: p.x, y: (p.y + my) as i64 }) {
                    my
                } else {
                    0
                },
            )
        },
    }
}

/// Item `i`'s position after the belt phase.
pub open spec fn spec_moved_pos(tiles: Seq<PlacedTile>, items: Seq<DroppedItem>, i: int) -> Pos {
    let (mx, my) = spec_committed_move(tiles, items, i);
    Pos { x: (items[i].pos.x + mx) as i64, y: (items[i].pos.y + my) as i64 }
}

/// Euclidean division by the cell size brackets its argument.
proof fn lemma_div32_range(a: int)
    ensures
        32 * (a / 32) <= a < 32 * (a / 32) + 32,
{
    assert(32 * (a / 32) <= a < 32 * (a / 32) + 32) by (nonlinear_arith);
}

/// A position lies in the footprint of the belt cell computed for it.
pub proof fn lemma_in_own_belt_rect(p: Pos)
    ensures
        in_belt_rect(p, spec_belt_cell_of(p)),
{
    lemma_div32_range(p.x + 8);
    lemma_div32_range(p.y + 24);
}

/// The committed move is at most one unit per axis and keeps the item in
/// the world's position range.
pub proof fn lemma_committed_move_bounds(tiles: Seq<PlacedTile>, items: Seq<DroppedItem>, i: int)
    requires
        forall|k: int| 0 <= k < tiles.len() ==> tile_wf(#[trigger] tiles[k]),
        0 <= i < items.len(),
        pos_in_range(items[i].pos),
    ensures
        ({
            let (mx, my) = spec_committed_move(tiles, items, i);
            &&& -1 <= mx <= 1
            &&& -1 <= my <= 1
            &&& pos_in_range(spec_moved_pos(tiles, items, i))
        }),
{
    reveal(spec_committed_move);
    let p = items[i].pos;
    match spec_belt_at(tiles, p) {
        None => {},
        Some(t) => {
            let c = spec_belt_cell_of(p);
            let idx = spec_tile_index_at(tiles, c);
            assert(0 <= idx < tiles.len() && tiles[idx].coord == c);
            lemma_in_own_belt_rect(p);
        },
    }
}

fn clamp_unit_exec(d: i64) -> (r: i64)
    requires
        -0x100_0000_0000 <= d <= 0x100_0000_0000,
    ensures
        r == clamp_unit(d as int),
{
    if d > 1 {
        1
    } else if d < -1 {
        -1
    } else {
        d
    }
}

/// One axis sub-move validated against the snapshot.
fn axis_move_ok(items: &Vec<DroppedItem>, i: usize, np: Pos) -> (r: bool)
    requires
        forall|k: int| 0 <= k < items@.len() ==> pos_in_range((#[trigger] items@[k]).pos),
        i < items@.len(),
        pos_in_range(np),
    ensures
        r == spec_axis_move_ok(items@, i as int, np),
{
    let n = items.len();
    let mut j: usize = 0;
    while j < n
        invariant
            forall|k: int| 0 <= k < items@.len() ==> pos_in_range((#[trigger] items@[k]).pos),
            i < items@.len(),
            pos_in_range(np),
            n == items@.len(),
            j <= n,
            forall|k: int|
                0 <= k < j && k != i ==> {
                    let d_after = cheb(np, (#[trigger] items@[k]).pos);
                    d_after > MIN_ITEM_DIST || d_after >= cheb(items@[i as int].pos, items@[k].pos)
                },
        decreases n - j,
    {
        if j != i {
            let d_after = cheb_dist(np, items[j].pos);
            if d_after <= MIN_ITEM_DIST {
                let d_before = cheb_dist(items[i].pos, items[j].pos);
                if d_after < d_before {
                    return false;
                }
            }
        }
        j = j + 1;
    }
    true
}

/// One fixed tick of belt transport.  Every per-item decision is computed
/// against the pre-tick snapshot of positions, then all moves are applied,
/// so no move can cascade within a single tick; machines and resource
/// tiles are untouched.
#[verifier::rlimit(100)]
pub fn update_tiles(world: &mut GameWorld)
    requires
        old(world).wf(),
    ensures
        final(world).wf(),
        final(world).grid == old(world).grid,
        final(world).items.items@.len() == old(world).items.items@.len(),
        forall|i: int|
            0 <= i < old(world).items.items@.len() ==> final(world).items.items@[i]
                == (DroppedItem {
                kind: (#[trigger] old(world).items.items@[i]).kind,
                pos: spec_moved_pos(old(world).grid.tiles@, old(world).items.items@, i),
            }),
{
    let ghost snap = world.items.items@;
    let ghost tiles_snap = world.grid.tiles@;
    let n = world.items.items.len();
    let mut moves: Vec<(i64, i64)> = Vec::new();
    let mut i: usize = 0;
    while i < n
        invariant
            world == old(world),
            old(world).wf(),
            snap == world.items.items@,
            tiles_snap == world.grid.tiles@,
            n == snap.len(),
            i <= n,
            moves@.len() == i,
            forall|k: int|
                0 <= k < i ==> ((#[trigger] moves@[k]).0 as int, moves@[k].1 as int)
                    == spec_committed_move(tiles_snap, snap, k),
        decreases n - i,
    {
        let p = world.items.items[i].pos;
        let c = belt_cell_of(p);
        let mut mv: (i64, i64) = (0, 0);
        match world.grid.find_tile(c) {
            Some(idx) => {
                let t = world.grid.tiles[idx];
                proof {
                    lemma_tile_index_unique(world.grid.tiles@, idx as int, c);
                }
                match t.kind {
                    MachineKind::Belt => {
                        let (mx, my): (i64, i64) = if t.rotation == 0 || t.rotation == 2 {
                            (
                                if t.rotation == 0 {
                                    1
                                } else {
                                    -1
                                },
                                clamp_unit_exec(32 * t.coord.y - p.y),
                            )
                        } else {
                            (
                                clamp_unit_exec(32 * t.coord.x - p.x),
                                if t.rotation == 1 {
                                    1
                                } else {
                                    -1
                                },
                            )
                        };
                        let okx = axis_move_ok(&world.items.items, i, Pos { x: p.x + mx, y: p.y });
                        let oky = axis_move_ok(&world.items.items, i, Pos { x: p.x, y: p.y + my });
                        mv = (
                            if okx {
                                mx
                            } else {
                                0
                            },
                            if oky {
                                my
                            } else {
                                0
                            },
                        );
                    },
                    _ => {},
                }
            },
            None => {},
        }
        proof {
            reveal(spec_committed_move);
            assert((mv.0 as int, mv.1 as int) == spec_committed_move(tiles_snap, snap, i as int));
        }
        moves.push(mv);
        i = i + 1;
    }
    let mut i: usize = 0;
    while i < n
        invariant
            old(world).wf(),
            world.grid == old(world).grid,
            snap == old(world).items.items@,
            tiles_snap == old(world).grid.tiles@,
            world.items.items@.len() == n,
            n == snap.len(),
            i <= n,
            moves@.len() == n,
            forall|k: int|
                0 <= k < n ==> ((#[trigger] moves@[k]).0 as int, moves@[k].1 as int)
                    == spec_committed_move(tiles_snap, snap, k),
            forall|k: int|
                0 <= k < i ==> world.items.items@[k] == (DroppedItem {
                    kind: (#[trigger] snap[k]).kind,
                    pos: spec_moved_pos(tiles_snap, snap, k),
                }),
            forall|k: int| i <= k < n ==> world.items.items@[k] == #[trigger] snap[k],
            world.items.wf(),
        decreases n - i,
    {
        let (mx, my) = moves[i];
        let it = world.items.items[i];
        proof {
            lemma_committed_move_bounds(tiles_snap, snap, i as int);
        }
        let np = Pos { x: it.pos.x + mx, y: it.pos.y + my };
        world.items.items.set(i, DroppedItem { kind: it.kind, pos: np });
        i = i + 1;
    }
}

/// Belt monotonicity: each committed axis sub-move of an item leaves every
/// other item either strictly outside the minimum separation or no closer
/// than it was before the move.  In particular, the item's distance to its
/// nearest neighbor strictly decreases only while it stays above the
/// minimum separation.
pub proof fn lemma_belt_move_monotonic(
    tiles: Seq<PlacedTile>,
    items: Seq<DroppedItem>,
    i: int,
    j: int,
)
    requires
        0 <= i < items.len(),
        0 <= j < items.len(),
        j != i,
    ensures
        ({
            let (mx, my) = spec_committed_move(tiles, items, i);
            let p = items[i].pos;
            let d0 = cheb(p, items[j].pos);
            let dx = cheb(Pos { x: (p.x + mx) as i64, y: p.y }, items[j].pos);
            let dy = cheb(Pos { x: p.x, y: (p.y + my) as i64 }, items[j].pos);
            &&& (dx > MIN_ITEM_DIST || dx >= d0)
            &&& (dy > MIN_ITEM_DIST || dy >= d0)
        }),
{
    reveal(spec_committed_move);
    let p = items[i].pos;
    assert(cheb(Pos { x: (p.x + 0) as i64, y: p.y }, items[j].pos) == cheb(p, items[j].pos));
    assert(cheb(Pos { x: p.x, y: (p.y + 0) as i64 }, items[j].pos) == cheb(p, items[j].pos));
}

/// The positions after one belt phase, as a sequence.
pub open spec fn spec_moved_items(tiles: Seq<PlacedTile>, items: Seq<DroppedItem>) -> Seq<
    DroppedItem,
> {
    Seq::new(items.len(), |i: int| (DroppedItem { kind: items[i].kind, pos: spec_moved_pos(tiles, items, i) }))
}

/// When every move committed in one tick lies along the same axis — as on
/// a lane of aligned belts whose items sit on the centerline — the
/// minimum-separation invariant is preserved, even though all moves are
/// validated against the pre-tick snapshot and applied together.
pub proof fn lemma_axis_moves_preserve_separation(
    items: Seq<DroppedItem>,
    moved: Seq<DroppedItem>,
    moves: Seq<(int, int)>,
)
    requires
        moves.len() == items.len(),
        moved.len() == items.len(),
        forall|k: int| 0 <= k < items.len() ==> (#[trigger] moves[k]).1 == 0,
        forall|k: int| 0 <= k < items.len() ==> -1 <= (#[trigger] moves[k]).0 <= 1,
        forall|k: int|
            0 <= k < items.len() && (#[trigger] moves[k]).0 != 0 ==> spec_axis_move_ok(
                items,
                k,
                Pos { x: (items[k].pos.x + moves[k].0) as i64, y: items[k].pos.y },
            ),
        forall|k: int|
            0 <= k < items.len() ==> (#[trigger] moved[k]).pos.x == items[k].pos.x + moves[k].0
                && moved[k].pos.y == items[k].pos.y,
        crate::items::spec_separated(items),
    ensures
        crate::items::spec_separated(moved),
{
    assert forall|i: int, j: int| 0 <= i < j < moved.len() implies cheb(
        (#[trigger] moved[i]).pos,
        (#[trigger] moved[j]).pos,
    ) >= MIN_ITEM_DIST by {
        let a = items[j].pos.x - items[i].pos.x;
        let b = items[j].pos.y - items[i].pos.y;
        let m = moves[i].0;
        let nn = moves[j].0;
        assert(cheb(items[i].pos, items[j].pos) >= MIN_ITEM_DIST);
        if crate::geom::abs_of(b) < MIN_ITEM_DIST {
            // The x difference dominates the pre-move distance.
            if m != 0 {
                assert(spec_axis_move_ok(
                    items,
                    i,
                    Pos { x: (items[i].pos.x + m) as i64, y: items[i].pos.y },
                ));
                assert({
                    let d_after = cheb(
                        Pos { x: (items[i].pos.x + m) as i64, y: items[i].pos.y },
                        items[j].pos,
                    );
                    d_after > MIN_ITEM_DIST || d_after >= cheb(items[i].pos, items[j].pos)
                });
            }
            if nn != 0 {
                assert(spec_axis_move_ok(
                    items,
                    j,
                    Pos { x: (items[j].pos.x + nn) as i64, y: items[j].pos.y },
                ));
                assert({
                    let d_after = cheb(
                        Pos { x: (items[j].pos.x + nn) as i64, y: items[j].pos.y },
                        items[i].pos,
                    );
                    d_after > MIN_ITEM_DIST || d_after >= cheb(items[j].pos, items[i].pos)
                });
            }
            assert(crate::geom::abs_of(a - m) >= MIN_ITEM_DIST);
            assert(crate::geom::abs_of(a + nn) >= MIN_ITEM_DIST);
            if crate::geom::abs_of(a - m) >= MIN_ITEM_DIST + 1 {
            } else if crate::geom::abs_of(a + nn) >= MIN_ITEM_DIST + 1 {
            } else {
                assert(m == 0 && nn == 0);
            }
            assert(crate::geom::abs_of(a - m + nn) >= MIN_ITEM_DIST);
        }
    }
}

/// The mirror of `lemma_axis_moves_preserve_separation` for moves that
/// all lie along the y axis, as on a lane of vertical belts.
pub proof fn lemma_axis_moves_preserve_separation_y(
    items: Seq<DroppedItem>,
    moved: Seq<DroppedItem>,
    moves: Seq<(int, int)>,
)
    requires
        moves.len() == items.len(),
        moved.len() == items.len(),
        forall|k: int| 0 <= k < items.len() ==> (#[trigger] moves[k]).0 == 0,
        forall|k: int| 0 <= k < items.len() ==> -1 <= (#[trigger] moves[k]).1 <= 1,
        forall|k: int|
            0 <= k < items.len() && (#[trigger] moves[k]).1 != 0 ==> spec_axis_move_ok(
                items,
                k,
                Pos { x: items[k].pos.x, y: (items[k].pos.y + moves[k].1) as i64 },
            ),
        forall|k: int|
            0 <= k < items.len() ==> (#[trigger] moved[k]).pos.y == items[k].pos.y + moves[k].1
                && moved[k].pos.x == items[k].pos.x,
        crate::items::spec_separated(items),
    ensures
        crate::items::spec_separated(moved),
{
    assert forall|i: int, j: int| 0 <= i < j < moved.len() implies cheb(
        (#[trigger] moved[i]).pos,
        (#[trigger] moved[j]).pos,
    ) >= MIN_ITEM_DIST by {
        let a = items[j].pos.y - items[i].pos.y;
        let b = items[j].pos.x - items[i].pos.x;
        let m = moves[i].1;
        let nn = moves[j].1;
        assert(cheb(items[i].pos, items[j].pos) >= MIN_ITEM_DIST);
        if crate::geom::abs_of(b) < MIN_ITEM_DIST {
            if m != 0 {
                assert(spec_axis_move_ok(
                    items,
                    i,
                    Pos { x: items[i].pos.x, y: (items[i].pos.y + m) as i64 },
                ));
                assert({
                    let d_after = cheb(
                        Pos { x: items[i].pos.x, y: (items[i].pos.y + m) as i64 },
                        items[j].pos,
                    );
                    d_after > MIN_ITEM_DIST || d_after >= cheb(items[i].pos, items[j].pos)
                });
            }
            if nn != 0 {
                assert(spec_axis_move_ok(
                    items,
                    j,
                    Pos { x: items[j].pos.x, y: (items[j].pos.y + nn) as i64 },
                ));
                assert({
                    let d_after = cheb(
                        Pos { x: items[j].pos.x, y: (items[j].pos.y + nn) as i64 },
                        items[i].pos,
                    );
                    d_after > MIN_ITEM_DIST || d_after >= cheb(items[j].pos, items[i].pos)
                });
            }
            assert(crate::geom::abs_of(a - m) >= MIN_ITEM_DIST);
            assert(crate::geom::abs_of(a + nn) >= MIN_ITEM_DIST);
            if crate::geom::abs_of(a - m) >= MIN_ITEM_DIST + 1 {
            } else if crate::geom::abs_of(a + nn) >= MIN_ITEM_DIST + 1 {
            } else {
                assert(m == 0 && nn == 0);
            }
            assert(crate::geom::abs_of(a - m + nn) >= MIN_ITEM_DIST);
        }
    }
}

/// The belt phase preserves the minimum-separation invariant whenever the
/// moves it commits all lie along one shared axis — as on a lane of
/// aligned belts whose items sit on the centerline.  (A pair of items at
/// the exact corner offset — both coordinate differences at the minimum —
/// with one item nudged diagonally is the configuration the per-axis rule
/// does not cover.)
pub proof fn lemma_belt_phase_preserves_separation(
    tiles: Seq<PlacedTile>,
    items: Seq<DroppedItem>,
)
    requires
        forall|k: int| 0 <= k < tiles.len() ==> tile_wf(#[trigger] tiles[k]),
        forall|k: int| 0 <= k < items.len() ==> pos_in_range((#[trigger] items[k]).pos),
        (forall|k: int| 0 <= k < items.len() ==> spec_committed_move(tiles, items, k).1 == 0)
            || (forall|k: int|
            0 <= k < items.len() ==> spec_committed_move(tiles, items, k).0 == 0),
        crate::items::spec_separated(items),
    ensures
        crate::items::spec_separated(spec_moved_items(tiles, items)),
{
    reveal(spec_committed_move);
    let moves = Seq::new(items.len(), |k: int| spec_committed_move(tiles, items, k));
    let moved = spec_moved_items(tiles, items);
    assert forall|k: int|
        0 <= k < items.len() implies -1 <= (#[trigger] moves[k]).0 <= 1 && -1 <= moves[k].1
        <= 1 by {
        lemma_committed_move_bounds(tiles, items, k);
    }
    if forall|k: int| 0 <= k < items.len() ==> spec_committed_move(tiles, items, k).1 == 0 {
        lemma_axis_moves_preserve_separation(items, moved, moves);
    } else {
        lemma_axis_moves_preserve_separation_y(items, moved, moves);
    }
}

} // verus!
