//! Integer geometry of the world: continuous positions in world units
//! (32 per grid cell), grid coordinates, Chebyshev distance, the rounding
//! from positions to cells, and the footprint of a belt.

use vstd::prelude::*;

verus! {

/// One grid cell spans this many world units along each axis.
pub const CELL_SIZE: i64 = 32;

/// The minimum Chebyshev separation two dropped items must keep.
pub const MIN_ITEM_DIST: i64 = 14;

/// Magnitude bound on continuous world coordinates (a machine limit, far
/// beyond the pragmatic generation radius of the world).
pub const POS_LIMIT: i64 = 0x40_0000_0000;

/// Magnitude bound on the grid coordinates machines and resource tiles
/// may occupy; `CELL_SIZE * COORD_LIMIT` plus any machine offset stays
/// well within the position range.
pub const COORD_LIMIT: i64 = 0x8000_0000;

/// A continuous position in world units.
#[derive(Clone, Copy, PartialEq, Eq, Structural, Debug)]
pub struct Pos {
    pub x: i64,
    pub y: i64,
}

/// A grid cell coordinate.
#[derive(Clone, Copy, PartialEq, Eq, Structural, Debug)]
pub struct Coord {
    pub x: i64,
    pub y: i64,
}

pub open spec fn pos_in_range(p: Pos) -> bool {
    &&& -POS_LIMIT <= p.x <= POS_LIMIT
    &&& -POS_LIMIT <= p.y <= POS_LIMIT
}

pub open spec fn coord_in_range(c: Coord) -> bool {
    &&& -COORD_LIMIT <= c.x <= COORD_LIMIT
    &&& -COORD_LIMIT <= c.y <= COORD_LIMIT
}

pub open spec fn abs_of(a: int) -> int {
    if a >= 0 { a } else { -a }
}

pub open spec fn max_of(a: int, b: int) -> int {
    if a >= b { a } else { b }
}

/// Chebyshev distance between two positions: the larger of the coordinate
/// differences.  This is the metric of the item-separation rule.
pub open spec fn cheb(a: Pos, b: Pos) -> int {
    max_of(abs_of(a.x - b.x), abs_of(a.y - b.y))
}

/// Squared Euclidean distance, used by the inserter's circular reach tests.
pub open spec fn euclid_sq(a: Pos, b: Pos) -> int {
    (a.x - b.x) * (a.x - b.x) + (a.y - b.y) * (a.y - b.y)
}

/// Unit step along the facing of a machine: rotation 0 points +x, 1 points
/// +y, 2 points -x, 3 points -y.
pub open spec fn dir_x(rotation: u8) -> int {
    if rotation == 0 { 1 } else if rotation == 2 { -1 } else { 0 }
}

pub open spec fn dir_y(rotation: u8) -> int {
    if rotation == 1 { 1 } else if rotation == 3 { -1 } else { 0 }
}

/// A displacement clamped to at most one world unit of magnitude.
pub open spec fn clamp_unit(d: int) -> int {
    if d > 1 { 1 } else if d < -1 { -1 } else { d }
}

/// The unit step along a machine's facing.
pub fn dir_step(rotation: u8) -> (d: (i64, i64))
    requires
        rotation < 4,
    ensures
        d.0 == dir_x(rotation),
        d.1 == dir_y(rotation),
{
    if rotation == 0 {
        (1, 0)
    } else if rotation == 1 {
        (0, 1)
    } else if rotation == 2 {
        (-1, 0)
    } else {
        (0, -1)
    }
}

/// The cell a position rounds to: the cell whose center `CELL_SIZE * c`
/// lies nearest (ties toward the cell above).
pub open spec fn spec_cell_of(p: Pos) -> Coord {
    Coord { x: ((p.x + 16) / 32) as i64, y: ((p.y + 16) / 32) as i64 }
}

/// The cell of the belt whose footprint holds an item at `p`.  A belt at
/// `c` occupies `CELL_SIZE * c.x <= p.x + 8 < CELL_SIZE * c.x + 32` and
/// `CELL_SIZE * c.y - 16 <= p.y + 8 < CELL_SIZE * c.y + 16`: the cell's
/// square, shifted down by half a cell to match the items' sprite anchor.
pub open spec fn spec_belt_cell_of(p: Pos) -> Coord {
    Coord { x: ((p.x + 8) / 32) as i64, y: ((p.y + 24) / 32) as i64 }
}

pub open spec fn in_belt_rect(p: Pos, c: Coord) -> bool {
    &&& 32 * c.x <= p.x + 8 < 32 * c.x + 32
    &&& 32 * c.y - 16 <= p.y + 8 < 32 * c.y + 16
}

/// Euclidean division by 32 is the unique `q` with `32q <= a < 32q + 32`.
proof fn lemma_floor_div_unique(a: int, q: int)
    requires
        32 * q <= a < 32 * q + 32,
    ensures
        a / 32 == q,
{
    assert(a / 32 == q) by (nonlinear_arith)
        requires 32 * q <= a < 32 * q + 32;
}

/// Absolute difference of two bounded coordinates.
fn abs_diff(a: i64, b: i64) -> (r: i64)
    requires
        -POS_LIMIT <= a <= POS_LIMIT,
        -POS_LIMIT <= b <= POS_LIMIT,
    ensures
        r == abs_of(a - b),
{
    if a >= b { a - b } else { b - a }
}

/// Chebyshev distance, as the separation rule measures it.
pub fn cheb_dist(a: Pos, b: Pos) -> (r: i64)
    requires
        pos_in_range(a),
        pos_in_range(b),
    ensures
        r == cheb(a, b),
{
    let dx = abs_diff(a.x, b.x);
    let dy = abs_diff(a.y, b.y);
    if dx >= dy { dx } else { dy }
}

/// Whether `b` lies strictly within Euclidean distance `radius` of `a`.
pub fn within_euclid(a: Pos, b: Pos, radius: i64) -> (r: bool)
    requires
        pos_in_range(a),
        pos_in_range(b),
        0 < radius <= 1000,
    ensures
        r == (euclid_sq(a, b) < radius * radius),
{
    let dx = abs_diff(a.x, b.x);
    let dy = abs_diff(a.y, b.y);
    if dx >= radius || dy >= radius {
        proof {
            if dx >= radius {
                lemma_sq_le(radius as int, dx as int);
            } else {
                lemma_sq_le(radius as int, dy as int);
            }
            lemma_sq_abs(a.x - b.x);
            lemma_sq_abs(a.y - b.y);
            lemma_sq_nonneg(a.x - b.x);
            lemma_sq_nonneg(a.y - b.y);
        }
        false
    } else {
        proof {
            lemma_sq_le(dx as int, 1000);
            lemma_sq_le(dy as int, 1000);
            lemma_sq_le(radius as int, 1000);
            lemma_sq_abs(a.x - b.x);
            lemma_sq_abs(a.y - b.y);
        }
        dx * dx + dy * dy < radius * radius
    }
}

proof fn lemma_sq_le(a: int, b: int)
    requires
        0 <= a <= b,
    ensures
        a * a <= b * b,
{
    assert(a * a <= b * b) by (nonlinear_arith)
        requires 0 <= a <= b;
}

proof fn lemma_sq_abs(d: int)
    ensures
        abs_of(d) * abs_of(d) == d * d,
{
    assert(abs_of(d) * abs_of(d) == d * d) by (nonlinear_arith);
}

proof fn lemma_sq_nonneg(d: int)
    ensures
        d * d >= 0,
{
    assert(d * d >= 0) by (nonlinear_arith);
}

/// Floor division by the cell size, correct for negative operands too.
fn floor_div_32(a: i64) -> (q: i64)
    requires
        -0x80_0000_0000 <= a <= 0x80_0000_0000,
    ensures
        32 * q <= a < 32 * q + 32,
{
    if a >= 0 {
        a / 32
    } else {
        let n = -a;
        let q1 = (n + 31) / 32;
        -q1
    }
}

/// The cell a position rounds to.
pub fn cell_of_pos(p: Pos) -> (c: Coord)
    requires
        pos_in_range(p),
    ensures
        c == spec_cell_of(p),
        32 * c.x <= p.x + 16 < 32 * c.x + 32,
        32 * c.y <= p.y + 16 < 32 * c.y + 32,
{
    let cx = floor_div_32(p.x + 16);
    let cy = floor_div_32(p.y + 16);
    proof {
        lemma_floor_div_unique(p.x + 16, cx as int);
        lemma_floor_div_unique(p.y + 16, cy as int);
        assert(Coord { x: cx, y: cy } =~= spec_cell_of(p));
    }
    Coord { x: cx, y: cy }
}

/// The cell of the belt whose footprint holds an item at `p`.
pub fn belt_cell_of(p: Pos) -> (c: Coord)
    requires
        pos_in_range(p),
    ensures
        c == spec_belt_cell_of(p),
        in_belt_rect(p, c),
{
    let cx = floor_div_32(p.x + 8);
    let cy = floor_div_32(p.y + 24);
    proof {
        lemma_floor_div_unique(p.x + 8, cx as int);
        lemma_floor_div_unique(p.y + 24, cy as int);
        assert(Coord { x: cx, y: cy } =~= spec_belt_cell_of(p));
    }
    Coord { x: cx, y: cy }
}

} // verus!
