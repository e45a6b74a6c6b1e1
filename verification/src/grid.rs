//! Placed machines, their kind-specific behavioral state, the static
//! resource tiles, and the grid index that maps each cell to at most one
//! machine and at most one resource tile.

use vstd::prelude::*;
use crate::geom::{Coord, coord_in_range};
use crate::kinds::{ItemKind, MachineKind, ResourceKind};
use crate::timer::{SimTimer, timer_wf};

verus! {

/// A miner emits one item per this period.
pub const MINER_PERIOD_MS: u64 = 1000;

/// A furnace needs this long per conversion cycle.
pub const FURNACE_PERIOD_MS: u64 = 3000;

/// An inserter arm's progress runs from 0 to this over one sweep.
pub const ARM_SWEEP: u32 = 1000;

/// Progress units the arm gains per millisecond: a full sweep in half a
/// second.
pub const ARM_SPEED_PER_MS: u32 = 2;

/// World-unit offset from an inserter's tile center to the arm's tip at
/// either end of the sweep: one cell plus the hand's anchor offset.
pub const ARM_REACH: i64 = 45;

/// Radius of the circular reach in which an inserter grabs items or talks
/// to a furnace: half a cell.
pub const PICKUP_RADIUS: i64 = 16;

/// Behavioral state of a miner bound to the resource beneath it.
#[derive(Clone, Copy, PartialEq, Eq, Structural, Debug)]
pub struct ProducerState {
    pub timer: SimTimer,
    /// The resource the miner was bound to when placed; it only emits while
    /// a matching tile still lies beneath it.
    pub resource: ResourceKind,
}

/// Behavioral state of an inserter's rotating arm.
#[derive(Clone, Copy, PartialEq, Eq, Structural, Debug)]
pub struct ArmState {
    /// Sweep progress in units of `ARM_SWEEP`; the arm acts at the endpoint
    /// once this saturates.
    pub progress: u32,
    /// Whether the current sweep heads for the front endpoint (ahead of the
    /// facing); the opposite endpoint is behind.  Each completed action
    /// reverses the sweep.
    pub to_front: bool,
    /// The item the arm carries between pickup and drop.
    pub carrying: Option<ItemKind>,
}

/// A stack of identical refined items buffered in a furnace's output slot.
#[derive(Clone, Copy, PartialEq, Eq, Structural, Debug)]
pub struct OutputStack {
    pub kind: ItemKind,
    pub count: u64,
}

/// Behavioral state of a furnace: one input unit, one output stack.
#[derive(Clone, Copy, PartialEq, Eq, Structural, Debug)]
pub struct ProcessorState {
    pub timer: SimTimer,
    pub input: Option<ItemKind>,
    pub output: Option<OutputStack>,
}

/// The kind-specific behavioral payload of a placed machine.
#[derive(Clone, Copy, PartialEq, Eq, Structural, Debug)]
pub enum Behavior {
    /// A belt: moves items across its footprint, no internal state.
    Transport,
    /// A miner standing over a resource.
    Producer(ProducerState),
    /// A miner placed on bare ground: it never produces.
    Inert,
    /// An inserter's arm.
    Arm(ArmState),
    /// A furnace.
    Processor(ProcessorState),
}

/// A machine occupying one grid cell.
#[derive(Clone, Copy, PartialEq, Eq, Structural, Debug)]
pub struct PlacedTile {
    pub kind: MachineKind,
    /// Facing in quarter turns: 0 is +x, 1 is +y, 2 is -x, 3 is -y.
    pub rotation: u8,
    pub coord: Coord,
    pub behavior: Behavior,
}

/// A static world tile marking extractable raw material.
#[derive(Clone, Copy, PartialEq, Eq, Structural, Debug)]
pub struct ResourceTile {
    pub resource: ResourceKind,
    pub coord: Coord,
}

pub open spec fn behavior_matches(kind: MachineKind, b: Behavior) -> bool {
    match kind {
        MachineKind::Belt => b is Transport,
        MachineKind::Miner => b is Producer || b is Inert,
        MachineKind::Inserter => b is Arm,
        MachineKind::Furnace => b is Processor,
    }
}

pub open spec fn behavior_wf(b: Behavior) -> bool {
    match b {
        Behavior::Transport => true,
        Behavior::Inert => true,
        Behavior::Producer(p) => timer_wf(p.timer) && p.timer.period_ms == MINER_PERIOD_MS,
        Behavior::Arm(a) => a.progress <= ARM_SWEEP,
        Behavior::Processor(p) => {
            &&& timer_wf(p.timer)
            &&& p.timer.period_ms == FURNACE_PERIOD_MS
            &&& match p.output {
                Some(stack) => stack.count >= 1,
                None => true,
            }
        },
    }
}

pub open spec fn tile_wf(t: PlacedTile) -> bool {
    &&& t.rotation < 4
    &&& coord_in_range(t.coord)
    &&& behavior_matches(t.kind, t.behavior)
    &&& behavior_wf(t.behavior)
}

/// Whether some machine in `tiles` occupies `c`.
pub open spec fn spec_occupied(tiles: Seq<PlacedTile>, c: Coord) -> bool {
    exists|j: int| 0 <= j < tiles.len() && #[trigger] tiles[j].coord == c
}

/// The index of the machine at `c`; meaningful only under `spec_occupied`
/// and the index's uniqueness from `GridIndex::wf`.
pub open spec fn spec_tile_index_at(tiles: Seq<PlacedTile>, c: Coord) -> int {
    choose|j: int| 0 <= j < tiles.len() && #[trigger] tiles[j].coord == c
}

/// Whether `resources` holds a tile of kind `r` at `c`.
pub open spec fn spec_resource_matches(
    resources: Seq<ResourceTile>,
    c: Coord,
    r: ResourceKind,
) -> bool {
    exists|i: int|
        0 <= i < resources.len() && #[trigger] resources[i] == (ResourceTile {
            resource: r,
            coord: c,
        })
}

/// Maps each grid cell to at most one machine and at most one resource
/// tile.  Lookup scans a list; the exclusivity invariant makes the answer
/// unique.
pub struct GridIndex {
    pub tiles: Vec<PlacedTile>,
    pub resources: Vec<ResourceTile>,
}

impl GridIndex {
    pub open spec fn wf(self) -> bool {
        &&& forall|i: int| 0 <= i < self.tiles@.len() ==> tile_wf(#[trigger] self.tiles@[i])
        &&& forall|i: int, j: int|
            0 <= i < j < self.tiles@.len()
                ==> (#[trigger] self.tiles@[i]).coord != (#[trigger] self.tiles@[j]).coord
        &&& forall|i: int|
            0 <= i < self.resources@.len() ==> coord_in_range(
                (#[trigger] self.resources@[i]).coord,
            )
        &&& forall|i: int, j: int|
            0 <= i < j < self.resources@.len()
                ==> (#[trigger] self.resources@[i]).coord != (#[trigger] self.resources@[j]).coord
    }

    pub open spec fn occupied(self, c: Coord) -> bool {
        spec_occupied(self.tiles@, c)
    }

    /// Whether a resource tile of kind `r` lies at `c`.
    pub open spec fn resource_matches(self, c: Coord, r: ResourceKind) -> bool {
        spec_resource_matches(self.resources@, c, r)
    }

    pub fn new() -> (g: GridIndex)
        ensures
            g.wf(),
            g.tiles@ =~= Seq::<PlacedTile>::empty(),
            g.resources@ =~= Seq::<ResourceTile>::empty(),
    {
        GridIndex { tiles: Vec::new(), resources: Vec::new() }
    }

    /// The index of the machine at `c`, if one stands there.
    pub fn find_tile(&self, c: Coord) -> (r: Option<usize>)
        ensures
            match r {
                Some(i) => i < self.tiles@.len() && self.tiles@[i as int].coord == c,
                None => !self.occupied(c),
            },
    {
        let n = self.tiles.len();
        let mut i: usize = 0;
        while i < n
            invariant
                n == self.tiles@.len(),
                i <= n,
                forall|j: int| 0 <= j < i ==> (#[trigger] self.tiles@[j]).coord != c,
            decreases n - i,
        {
            if self.tiles[i].coord == c {
                return Some(i);
            }
            i = i + 1;
        }
        None
    }

    /// The machine occupying `c`, if any.
    pub fn get(&self, c: Coord) -> (r: Option<&PlacedTile>)
        requires
            self.wf(),
        ensures
            match r {
                Some(t) => {
                    &&& self.occupied(c)
                    &&& t.coord == c
                    &&& exists|i: int|
                        0 <= i < self.tiles@.len() && *t == #[trigger] self.tiles@[i]
                },
                None => !self.occupied(c),
            },
    {
        match self.find_tile(c) {
            Some(i) => Some(&self.tiles[i]),
            None => None,
        }
    }

    /// Stores `t` only if its cell is free: exactly one machine may occupy
    /// a coordinate, and a placement onto an occupied cell is a no-op
    /// reporting failure.
    pub fn place(&mut self, t: PlacedTile) -> (r: bool)
        requires
            old(self).wf(),
            tile_wf(t),
        ensures
            final(self).wf(),
            r == !old(self).occupied(t.coord),
            r ==> final(self).tiles@ == old(self).tiles@.push(t),
            !r ==> *final(self) == *old(self),
            final(self).resources@ == old(self).resources@,
    {
        match self.find_tile(t.coord) {
            Some(_) => false,
            None => {
                self.tiles.push(t);
                true
            },
        }
    }

    /// Removes and returns the machine at `c`; frees the cell.
    pub fn remove(&mut self, c: Coord) -> (r: Option<PlacedTile>)
        requires
            old(self).wf(),
        ensures
            final(self).wf(),
            final(self).resources@ == old(self).resources@,
            match r {
                Some(t) => {
                    &&& t.coord == c
                    &&& exists|i: int|
                        0 <= i < old(self).tiles@.len() && t == old(self).tiles@[i]
                            && final(self).tiles@ == old(self).tiles@.remove(i)
                    &&& !final(self).occupied(c)
                },
                None => !old(self).occupied(c) && *final(self) == *old(self),
            },
    {
        match self.find_tile(c) {
            Some(i) => {
                let t = self.tiles.remove(i);
                proof {
                    let pre = old(self).tiles@;
                    assert forall|a: int, b: int|
                        0 <= a < b < self.tiles@.len() implies (#[trigger] self.tiles@[a]).coord
                        != (#[trigger] self.tiles@[b]).coord by {
                        assert(self.tiles@[a] == if a < i { pre[a] } else { pre[a + 1] });
                        assert(self.tiles@[b] == if b < i { pre[b] } else { pre[b + 1] });
                    }
                    assert forall|j: int| 0 <= j < self.tiles@.len() implies (
                    #[trigger] self.tiles@[j]).coord != c by {
                        assert(self.tiles@[j] == if j < i { pre[j] } else { pre[j + 1] });
                    }
                }
                Some(t)
            },
            None => None,
        }
    }

    /// Stores a resource tile only if no resource tile lies at its cell
    /// yet; overlapping generation is a no-op.
    pub fn place_resource(&mut self, rt: ResourceTile) -> (r: bool)
        requires
            old(self).wf(),
            coord_in_range(rt.coord),
        ensures
            final(self).wf(),
            final(self).tiles@ == old(self).tiles@,
            r == !(exists|i: int|
                0 <= i < old(self).resources@.len() && (#[trigger] old(
                    self,
                ).resources@[i]).coord == rt.coord),
            r ==> final(self).resources@ == old(self).resources@.push(rt),
            !r ==> *final(self) == *old(self),
    {
        let n = self.resources.len();
        let mut i: usize = 0;
        while i < n
            invariant
                self == old(self),
                old(self).wf(),
                n == self.resources@.len(),
                i <= n,
                forall|j: int| 0 <= j < i ==> (#[trigger] self.resources@[j]).coord != rt.coord,
            decreases n - i,
        {
            if self.resources[i].coord == rt.coord {
                return false;
            }
            i = i + 1;
        }
        self.resources.push(rt);
        true
    }

    /// The kind of the resource tile at `c`, if one lies there.
    pub fn resource_at(&self, c: Coord) -> (r: Option<ResourceKind>)
        requires
            self.wf(),
        ensures
            match r {
                Some(k) => self.resource_matches(c, k) && forall|k2: ResourceKind|
                    k2 != k ==> !self.resource_matches(c, k2),
                None => forall|k: ResourceKind| !self.resource_matches(c, k),
            },
    {
        let n = self.resources.len();
        let mut i: usize = 0;
        while i < n
            invariant
                self.wf(),
                n == self.resources@.len(),
                i <= n,
                forall|j: int| 0 <= j < i ==> (#[trigger] self.resources@[j]).coord != c,
            decreases n - i,
        {
            let rt = self.resources[i];
            if rt.coord.x == c.x && rt.coord.y == c.y {
                proof {
                    assert(self.resources@[i as int] == (ResourceTile {
                        resource: rt.resource,
                        coord: c,
                    }));
                    assert forall|k2: ResourceKind| k2 != rt.resource implies !self.resource_matches(
                        c,
                        k2,
                    ) by {
                        if self.resource_matches(c, k2) {
                            let j = choose|j: int|
                                0 <= j < self.resources@.len() && #[trigger] self.resources@[j]
                                    == (ResourceTile { resource: k2, coord: c });
                            if j != i {
                                let (a, b) = if j < i { (j, i as int) } else { (i as int, j) };
                                assert(self.resources@[a].coord == self.resources@[b].coord);
                            }
                        }
                    }
                }
                return Some(rt.resource);
            }
            i = i + 1;
        }
        None
    }
}

/// Under the exclusivity invariant, the index of the machine at a cell is
/// the only one whose coordinate matches.
pub proof fn lemma_tile_index_unique(tiles: Seq<PlacedTile>, i: int, c: Coord)
    requires
        forall|a: int, b: int|
            0 <= a < b < tiles.len() ==> (#[trigger] tiles[a]).coord != (#[trigger] tiles[b]).coord,
        0 <= i < tiles.len(),
        tiles[i].coord == c,
    ensures
        spec_tile_index_at(tiles, c) == i,
        spec_occupied(tiles, c),
{
    assert(spec_occupied(tiles, c));
    let j = spec_tile_index_at(tiles, c);
    if j != i {
        assert(tiles[if j < i { j } else { i }].coord == tiles[if j < i { i } else { j }].coord);
    }
}

} // verus!
