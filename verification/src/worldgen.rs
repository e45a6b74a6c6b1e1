//! World generation: resource patches grown by a random walk from a
//! seeded generator — a hundred patches of five to forty tiles, each
//! clustered around a random center within the pragmatic generation
//! radius.

use vstd::prelude::*;
use crate::geom::Coord;
use crate::grid::{GridIndex, ResourceTile};
use crate::kinds::ResourceKind;

verus! {

/// Patch centers fall within this many cells of the origin.
pub const GEN_CENTER_RADIUS: i64 = 100;

/// A patch spreads at most this many cells from its center, so every
/// generated tile lies within `GEN_CENTER_RADIUS + GEN_PATCH_RADIUS` of
/// the origin.
pub const GEN_PATCH_RADIUS: i64 = 40;

#[verifier::external_type_specification]
#[verifier::external_body]
pub struct ExChaCha8Rng(rand_chacha::ChaCha8Rng);

/// Relies on rand_core's SeedableRng::seed_from_u64 for ChaCha8Rng: a
/// deterministic generator expanded from one integer seed.
#[verifier::external_body]
fn rng_from_seed(seed: u64) -> (rng: rand_chacha::ChaCha8Rng) {
    <rand_chacha::ChaCha8Rng as rand::SeedableRng>::seed_from_u64(seed)
}

/// Relies on rand's Rng::gen_range over a half-open integer range: the
/// result always lies in the range; the call panics on an empty range,
/// which the precondition rules out.
#[verifier::external_body]
fn rand_range(rng: &mut rand_chacha::ChaCha8Rng, lo: i64, hi: i64) -> (r: i64)
    requires
        lo < hi,
    ensures
        lo <= r < hi,
{
    rand::Rng::gen_range(rng, lo..hi)
}

/// Whether the relative cell `(x, y)` is part of the patch so far.
pub open spec fn in_taken(taken: Seq<(i64, i64)>, x: int, y: int) -> bool {
    exists|m: int|
        0 <= m < taken.len() && (#[trigger] taken[m]).0 == x && taken[m].1 == y
}

/// Whether all four neighbors of the relative cell `(x, y)` are already
/// part of the patch — such a cell cannot be extended.
pub open spec fn sat_cell(taken: Seq<(i64, i64)>, x: int, y: int) -> bool {
    &&& in_taken(taken, x, y - 1)
    &&& in_taken(taken, x - 1, y)
    &&& in_taken(taken, x + 1, y)
    &&& in_taken(taken, x, y + 1)
}

/// The order in which the walk scans the patch: onward from a random
/// start, wrapping around.
pub open spec fn scan_idx(start: int, kk: int, len: int) -> int {
    if start + kk < len {
        start + kk
    } else {
        start + kk - len
    }
}

/// Whether a resource tile lies on this patch: at the patch center
/// translated by one of the taken relative cells.
pub open spec fn covered_by(rt: ResourceTile, taken: Seq<(i64, i64)>, cx: i64, cy: i64) -> bool {
    exists|m: int|
        0 <= m < taken.len() && rt.coord.x == cx + (#[trigger] taken[m]).0 && rt.coord.y == cy
            + taken[m].1
}

/// Every resource tile of the grid lies on this patch.
pub open spec fn patch_covers(
    resources: Seq<ResourceTile>,
    taken: Seq<(i64, i64)>,
    cx: i64,
    cy: i64,
) -> bool {
    forall|ri: int|
        0 <= ri < resources.len() ==> covered_by(#[trigger] resources[ri], taken, cx, cy)
}

/// `i` indexes a cell of the patch whose x coordinate no other cell
/// exceeds.
spec fn is_max_x(taken: Seq<(i64, i64)>, i: int) -> bool {
    &&& 0 <= i < taken.len()
    &&& forall|j: int| 0 <= j < taken.len() ==> (#[trigger] taken[j]).0 <= taken[i].0
}

/// A nonempty patch has a cell of maximal x coordinate.
proof fn lemma_exists_max_x(taken: Seq<(i64, i64)>)
    requires
        taken.len() > 0,
    ensures
        exists|i: int| #[trigger] is_max_x(taken, i),
    decreases taken.len(),
{
    if taken.len() == 1 {
        assert(is_max_x(taken, 0));
    } else {
        lemma_exists_max_x(taken.drop_last());
        let i0 = choose|i: int| #[trigger] is_max_x(taken.drop_last(), i);
        let last = taken.len() - 1;
        assert(forall|j: int| 0 <= j < last ==> (#[trigger] taken[j]).0 == taken.drop_last()[j].0);
        if taken[last].0 >= taken[i0].0 {
            assert(is_max_x(taken, last));
        } else {
            assert(is_max_x(taken, i0));
        }
    }
}

/// A nonempty patch always has a cell that can still be extended: the
/// cell with the largest x coordinate has its east neighbor free.
proof fn lemma_unsaturated_cell_exists(taken: Seq<(i64, i64)>)
    requires
        taken.len() > 0,
    ensures
        exists|j: int|
            0 <= j < taken.len() && !sat_cell(
                taken,
                (#[trigger] taken[j]).0 as int,
                taken[j].1 as int,
            ),
{
    lemma_exists_max_x(taken);
    let i = choose|i: int| #[trigger] is_max_x(taken, i);
    assert(!in_taken(taken, taken[i].0 + 1, taken[i].1 as int)) by {
        if in_taken(taken, taken[i].0 + 1, taken[i].1 as int) {
            let m = choose|m: int|
                0 <= m < taken.len() && (#[trigger] taken[m]).0 == taken[i].0 + 1 && taken[m].1
                    == taken[i].1;
            assert(taken[m].0 <= taken[i].0);
        }
    }
    assert(!sat_cell(taken, taken[i].0 as int, taken[i].1 as int));
}

/// Whether the relative cell `(x, y)` is already part of the patch.
fn contains_pair(taken: &Vec<(i64, i64)>, x: i64, y: i64) -> (r: bool)
    ensures
        r == in_taken(taken@, x as int, y as int),
{
    let n = taken.len();
    let mut i: usize = 0;
    while i < n
        invariant
            n == taken@.len(),
            i <= n,
            forall|j: int|
                0 <= j < i ==> !((#[trigger] taken@[j]).0 == x && taken@[j].1 == y),
        decreases n - i,
    {
        let (tx, ty) = taken[i];
        if tx == x && ty == y {
            proof {
                assert((taken@[i as int]).0 == x && taken@[i as int].1 == y);
            }
            return true;
        }
        i = i + 1;
    }
    false
}

/// Generate the world's resource patches into the grid index.  Every
/// outcome of the generator yields a well-formed grid: machines are
/// untouched, the resource tiles already present stay, and every new tile
/// lies within the generation radius of the origin.  On a fresh grid the
/// generator is guaranteed productive: the first patch alone yields at
/// least five tiles.  (Where two patches overlap, the earlier tile stays
/// — at most one resource tile per cell.)
pub fn generate_world(grid: &mut GridIndex, seed: u64)
    requires
        old(grid).wf(),
    ensures
        final(grid).wf(),
        final(grid).tiles@ == old(grid).tiles@,
        final(grid).resources@.len() >= old(grid).resources@.len(),
        old(grid).resources@.len() == 0 ==> final(grid).resources@.len() >= 5,
        forall|i: int|
            0 <= i < old(grid).resources@.len() ==> final(grid).resources@[i] == #[trigger] old(
                grid,
            ).resources@[i],
        forall|i: int|
            old(grid).resources@.len() <= i < final(grid).resources@.len() ==> {
                let c = (#[trigger] final(grid).resources@[i]).coord;
                &&& -(GEN_CENTER_RADIUS + GEN_PATCH_RADIUS) <= c.x <= GEN_CENTER_RADIUS
                    + GEN_PATCH_RADIUS
                &&& -(GEN_CENTER_RADIUS + GEN_PATCH_RADIUS) <= c.y <= GEN_CENTER_RADIUS
                    + GEN_PATCH_RADIUS
            },
{
    let mut rng = rng_from_seed(seed);
    let mut patch: u64 = 0;
    while patch < 100
        invariant
            grid.wf(),
            grid.tiles@ == old(grid).tiles@,
            grid.resources@.len() >= old(grid).resources@.len(),
            old(grid).resources@.len() == 0 && patch == 0 ==> grid.resources@.len() == 0,
            old(grid).resources@.len() == 0 && patch >= 1 ==> grid.resources@.len() >= 5,
            forall|i: int|
                0 <= i < old(grid).resources@.len() ==> grid.resources@[i] == #[trigger] old(
                    grid,
                ).resources@[i],
            forall|i: int|
                old(grid).resources@.len() <= i < grid.resources@.len() ==> {
                    let c = (#[trigger] grid.resources@[i]).coord;
                    &&& -(GEN_CENTER_RADIUS + GEN_PATCH_RADIUS) <= c.x <= GEN_CENTER_RADIUS
                        + GEN_PATCH_RADIUS
                    &&& -(GEN_CENTER_RADIUS + GEN_PATCH_RADIUS) <= c.y <= GEN_CENTER_RADIUS
                        + GEN_PATCH_RADIUS
                },
        decreases 100 - patch,
    {
        let cx = rand_range(&mut rng, -GEN_CENTER_RADIUS, GEN_CENTER_RADIUS);
        let cy = rand_range(&mut rng, -GEN_CENTER_RADIUS, GEN_CENTER_RADIUS);
        let res = match rand_range(&mut rng, 0, 3) {
            0 => ResourceKind::Coal,
            1 => ResourceKind::IronOre,
            _ => ResourceKind::CopperOre,
        };
        let num_tiles = rand_range(&mut rng, 5, GEN_PATCH_RADIUS);
        let ghost pre = grid.resources@;
        grow_patch(grid, &mut rng, res, cx, cy, num_tiles);
        proof {
            assert forall|i: int|
                old(grid).resources@.len() <= i < grid.resources@.len() implies {
                let c = (#[trigger] grid.resources@[i]).coord;
                &&& -(GEN_CENTER_RADIUS + GEN_PATCH_RADIUS) <= c.x <= GEN_CENTER_RADIUS
                    + GEN_PATCH_RADIUS
                &&& -(GEN_CENTER_RADIUS + GEN_PATCH_RADIUS) <= c.y <= GEN_CENTER_RADIUS
                    + GEN_PATCH_RADIUS
            } by {
                if i < pre.len() {
                    assert(grid.resources@[i] == pre[i]);
                }
            }
        }
        patch = patch + 1;
    }
}

/// Grow one patch of `num_tiles` tiles of kind `res` by a random walk:
/// starting from the center, repeatedly pick a random cell of the patch
/// and attach a free neighbor of it, scanning onward from the pick.  The
/// scan always succeeds — the easternmost cell always has a free
/// neighbor — so the patch reaches its full size; on a grid holding no
/// resource tile yet, every placement lands on a fresh cell and the grid
/// gains the full `num_tiles` tiles.
fn grow_patch(
    grid: &mut GridIndex,
    rng: &mut rand_chacha::ChaCha8Rng,
    res: ResourceKind,
    cx: i64,
    cy: i64,
    num_tiles: i64,
)
    requires
        old(grid).wf(),
        -GEN_CENTER_RADIUS <= cx <= GEN_CENTER_RADIUS,
        -GEN_CENTER_RADIUS <= cy <= GEN_CENTER_RADIUS,
        1 <= num_tiles < GEN_PATCH_RADIUS,
    ensures
        final(grid).wf(),
        final(grid).tiles@ == old(grid).tiles@,
        final(grid).resources@.len() >= old(grid).resources@.len(),
        old(grid).resources@.len() == 0 ==> final(grid).resources@.len() >= num_tiles,
        forall|i: int|
            0 <= i < old(grid).resources@.len() ==> final(grid).resources@[i] == #[trigger] old(
                grid,
            ).resources@[i],
        forall|i: int|
            old(grid).resources@.len() <= i < final(grid).resources@.len() ==> {
                let c = (#[trigger] final(grid).resources@[i]).coord;
                &&& -(GEN_CENTER_RADIUS + GEN_PATCH_RADIUS) <= c.x <= GEN_CENTER_RADIUS
                    + GEN_PATCH_RADIUS
                &&& -(GEN_CENTER_RADIUS + GEN_PATCH_RADIUS) <= c.y <= GEN_CENTER_RADIUS
                    + GEN_PATCH_RADIUS
            },
{
    let mut taken: Vec<(i64, i64)> = Vec::new();
    taken.push((0, 0));
    grid.place_resource(ResourceTile { resource: res, coord: Coord { x: cx, y: cy } });
    proof {
        if old(grid).resources@.len() == 0 {
            assert(grid.resources@.len() == 1);
            assert forall|ri: int| 0 <= ri < grid.resources@.len() implies covered_by(
                #[trigger] grid.resources@[ri],
                taken@,
                cx,
                cy,
            ) by {
                assert((taken@[0]).0 == 0 && taken@[0].1 == 0);
                assert(grid.resources@[0].coord.x == cx + taken@[0].0);
                assert(grid.resources@[0].coord.y == cy + taken@[0].1);
            }
        }
    }
    let mut t: i64 = 1;
    while t < num_tiles
        invariant
            grid.wf(),
            grid.tiles@ == old(grid).tiles@,
            -GEN_CENTER_RADIUS <= cx <= GEN_CENTER_RADIUS,
            -GEN_CENTER_RADIUS <= cy <= GEN_CENTER_RADIUS,
            1 <= num_tiles < GEN_PATCH_RADIUS,
            1 <= t <= num_tiles,
            taken@.len() == t,
            forall|i: int|
                0 <= i < taken@.len() ==> {
                    let e = #[trigger] taken@[i];
                    -(taken@.len() - 1) <= e.0 <= taken@.len() - 1 && -(taken@.len() - 1) <= e.1
                        <= taken@.len() - 1
                },
            grid.resources@.len() >= old(grid).resources@.len(),
            old(grid).resources@.len() == 0 ==> grid.resources@.len() == taken@.len()
                && patch_covers(grid.resources@, taken@, cx, cy),
            forall|i: int|
                0 <= i < old(grid).resources@.len() ==> grid.resources@[i] == #[trigger] old(
                    grid,
                ).resources@[i],
            forall|i: int|
                old(grid).resources@.len() <= i < grid.resources@.len() ==> {
                    let c = (#[trigger] grid.resources@[i]).coord;
                    &&& -(GEN_CENTER_RADIUS + GEN_PATCH_RADIUS) <= c.x <= GEN_CENTER_RADIUS
                        + GEN_PATCH_RADIUS
                    &&& -(GEN_CENTER_RADIUS + GEN_PATCH_RADIUS) <= c.y <= GEN_CENTER_RADIUS
                        + GEN_PATCH_RADIUS
                },
        decreases num_tiles - t,
    {
        let len = taken.len();
        let start = rand_range(rng, 0, len as i64) as usize;
        let mut kk: usize = 0;
        let mut added = false;
        while kk < len && !added
            invariant
                grid.wf(),
                grid.tiles@ == old(grid).tiles@,
                -GEN_CENTER_RADIUS <= cx <= GEN_CENTER_RADIUS,
                -GEN_CENTER_RADIUS <= cy <= GEN_CENTER_RADIUS,
                1 <= num_tiles < GEN_PATCH_RADIUS,
                1 <= t < num_tiles,
                start < len,
                kk <= len,
                len <= taken@.len() <= t + 1,
                !added ==> taken@.len() == len && len == t,
                added ==> taken@.len() == t + 1,
                forall|i: int|
                    0 <= i < taken@.len() ==> {
                        let e = #[trigger] taken@[i];
                        -(taken@.len() - 1) <= e.0 <= taken@.len() - 1 && -(taken@.len() - 1)
                            <= e.1 <= taken@.len() - 1
                    },
                !added ==> forall|kk2: int|
                    0 <= kk2 < kk ==> sat_cell(
                        taken@,
                        (#[trigger] taken@[scan_idx(start as int, kk2, len as int)]).0 as int,
                        taken@[scan_idx(start as int, kk2, len as int)].1 as int,
                    ),
                grid.resources@.len() >= old(grid).resources@.len(),
                old(grid).resources@.len() == 0 ==> grid.resources@.len() == taken@.len()
                    && patch_covers(grid.resources@, taken@, cx, cy),
                forall|i: int|
                    0 <= i < old(grid).resources@.len() ==> grid.resources@[i] == #[trigger] old(
                        grid,
                    ).resources@[i],
                forall|i: int|
                    old(grid).resources@.len() <= i < grid.resources@.len() ==> {
                        let c = (#[trigger] grid.resources@[i]).coord;
                        &&& -(GEN_CENTER_RADIUS + GEN_PATCH_RADIUS) <= c.x <= GEN_CENTER_RADIUS
                            + GEN_PATCH_RADIUS
                        &&& -(GEN_CENTER_RADIUS + GEN_PATCH_RADIUS) <= c.y <= GEN_CENTER_RADIUS
                            + GEN_PATCH_RADIUS
                    },
            decreases len - kk,
        {
            let idx = if start + kk < len {
                start + kk
            } else {
                start + kk - len
            };
            let (sx, sy) = taken[idx];
            let mut d: u8 = 0;
            while d < 4 && !added
                invariant
                    grid.wf(),
                    grid.tiles@ == old(grid).tiles@,
                    -GEN_CENTER_RADIUS <= cx <= GEN_CENTER_RADIUS,
                    -GEN_CENTER_RADIUS <= cy <= GEN_CENTER_RADIUS,
                    1 <= num_tiles < GEN_PATCH_RADIUS,
                    1 <= t < num_tiles,
                    d <= 4,
                    idx < len,
                    kk < len,
                    !added ==> (sx, sy) == taken@[idx as int],
                    len <= taken@.len() <= t + 1,
                    !added ==> taken@.len() == len && len == t,
                    added ==> taken@.len() == t + 1,
                    -(len - 1) <= sx <= len - 1,
                    -(len - 1) <= sy <= len - 1,
                    forall|i: int|
                        0 <= i < taken@.len() ==> {
                            let e = #[trigger] taken@[i];
                            -(taken@.len() - 1) <= e.0 <= taken@.len() - 1 && -(taken@.len() - 1)
                                <= e.1 <= taken@.len() - 1
                        },
                    !added ==> forall|kk2: int|
                        0 <= kk2 < kk ==> sat_cell(
                            taken@,
                            (#[trigger] taken@[scan_idx(start as int, kk2, len as int)]).0 as int,
                            taken@[scan_idx(start as int, kk2, len as int)].1 as int,
                        ),
                    !added && d >= 1 ==> in_taken(taken@, sx as int, sy - 1),
                    !added && d >= 2 ==> in_taken(taken@, sx - 1, sy as int),
                    !added && d >= 3 ==> in_taken(taken@, sx + 1, sy as int),
                    !added && d >= 4 ==> in_taken(taken@, sx as int, sy + 1),
                    grid.resources@.len() >= old(grid).resources@.len(),
                    old(grid).resources@.len() == 0 ==> grid.resources@.len() == taken@.len()
                        && patch_covers(grid.resources@, taken@, cx, cy),
                    forall|i: int|
                        0 <= i < old(grid).resources@.len() ==> grid.resources@[i]
                            == #[trigger] old(grid).resources@[i],
                    forall|i: int|
                        old(grid).resources@.len() <= i < grid.resources@.len() ==> {
                            let c = (#[trigger] grid.resources@[i]).coord;
                            &&& -(GEN_CENTER_RADIUS + GEN_PATCH_RADIUS) <= c.x
                                <= GEN_CENTER_RADIUS + GEN_PATCH_RADIUS
                            &&& -(GEN_CENTER_RADIUS + GEN_PATCH_RADIUS) <= c.y
                                <= GEN_CENTER_RADIUS + GEN_PATCH_RADIUS
                        },
                decreases 4 - d,
            {
                let (dx, dy): (i64, i64) = if d == 0 {
                    (0, -1)
                } else if d == 1 {
                    (-1, 0)
                } else if d == 2 {
                    (1, 0)
                } else {
                    (0, 1)
                };
                let nx = sx + dx;
                let ny = sy + dy;
                if nx >= -GEN_PATCH_RADIUS && nx <= GEN_PATCH_RADIUS && ny >= -GEN_PATCH_RADIUS
                    && ny <= GEN_PATCH_RADIUS && !contains_pair(&taken, nx, ny) {
                    let ghost pre_res = grid.resources@;
                    let ghost pre_taken = taken@;
                    taken.push((nx, ny));
                    proof {
                        if old(grid).resources@.len() == 0 {
                            assert forall|ri: int| 0 <= ri < pre_res.len() implies (
                            #[trigger] pre_res[ri]).coord.x != cx + nx || pre_res[ri].coord.y != cy
                                + ny by {
                                if pre_res[ri].coord.x == cx + nx && pre_res[ri].coord.y == cy
                                    + ny {
                                    assert(covered_by(pre_res[ri], pre_taken, cx, cy));
                                    let m = choose|m: int|
                                        0 <= m < pre_taken.len() && pre_res[ri].coord.x == cx + (
                                        #[trigger] pre_taken[m]).0 && pre_res[ri].coord.y == cy
                                            + pre_taken[m].1;
                                    assert((pre_taken[m]).0 == nx && pre_taken[m].1 == ny);
                                    assert(in_taken(pre_taken, nx as int, ny as int));
                                }
                            }
                        }
                    }
                    grid.place_resource(
                        ResourceTile { resource: res, coord: Coord { x: cx + nx, y: cy + ny } },
                    );
                    proof {
                        if old(grid).resources@.len() == 0 {
                            assert(grid.resources@.len() == taken@.len());
                            assert forall|ri: int| 0 <= ri < grid.resources@.len() implies covered_by(
                                #[trigger] grid.resources@[ri],
                                taken@,
                                cx,
                                cy,
                            ) by {
                                if ri < pre_res.len() {
                                    assert(covered_by(pre_res[ri], pre_taken, cx, cy));
                                    let m = choose|m: int|
                                        0 <= m < pre_taken.len() && pre_res[ri].coord.x == cx + (
                                        #[trigger] pre_taken[m]).0 && pre_res[ri].coord.y == cy
                                            + pre_taken[m].1;
                                    assert(grid.resources@[ri] == pre_res[ri]);
                                    assert((taken@[m]).0 == pre_taken[m].0 && taken@[m].1
                                        == pre_taken[m].1);
                                } else {
                                    assert((taken@[pre_taken.len() as int]).0 == nx
                                        && taken@[pre_taken.len() as int].1 == ny);
                                    assert(grid.resources@[ri].coord.x == cx + nx
                                        && grid.resources@[ri].coord.y == cy + ny);
                                }
                            }
                            assert(patch_covers(grid.resources@, taken@, cx, cy));
                        }
                    }
                    added = true;
                }
                d = d + 1;
            }
            proof {
                if !added {
                    assert(in_taken(taken@, sx as int, sy - 1));
                    assert(in_taken(taken@, sx - 1, sy as int));
                    assert(in_taken(taken@, sx + 1, sy as int));
                    assert(in_taken(taken@, sx as int, sy + 1));
                    assert(sat_cell(taken@, sx as int, sy as int));
                    assert forall|kk2: int| 0 <= kk2 < kk + 1 implies sat_cell(
                        taken@,
                        (#[trigger] taken@[scan_idx(start as int, kk2, len as int)]).0 as int,
                        taken@[scan_idx(start as int, kk2, len as int)].1 as int,
                    ) by {
                        if kk2 == kk {
                            assert(scan_idx(start as int, kk2, len as int) == idx);
                            assert(taken@[idx as int] == (sx, sy));
                        }
                    }
                }
            }
            kk = kk + 1;
        }
        proof {
            if !added {
                // Every cell of the patch was scanned and found saturated;
                // the easternmost cell refutes that.
                assert forall|j: int|
                    0 <= j < taken@.len() implies sat_cell(
                    taken@,
                    (#[trigger] taken@[j]).0 as int,
                    taken@[j].1 as int,
                ) by {
                    let kk2 = if j >= start { j - start } else { j + len - start };
                    assert(scan_idx(start as int, kk2 as int, len as int) == j);
                    assert(sat_cell(
                        taken@,
                        (taken@[scan_idx(start as int, kk2 as int, len as int)]).0 as int,
                        taken@[scan_idx(start as int, kk2 as int, len as int)].1 as int,
                    ));
                }
                lemma_unsaturated_cell_exists(taken@);
            }
        }
        t = t + 1;
    }
}

} // verus!
