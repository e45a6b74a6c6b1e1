//! Behavior of the machines through the fixed-tick phases.

use factorito::geom::{Coord, Pos};
use factorito::grid::{
    ARM_SWEEP, ArmState, Behavior, FURNACE_PERIOD_MS, GridIndex, MINER_PERIOD_MS, OutputStack,
    PlacedTile, ProcessorState, ProducerState, ResourceTile,
};
use factorito::items::{DroppedItem, ItemRegistry};
use factorito::kinds::{ItemKind, MachineKind, ResourceKind};
use factorito::timer::SimTimer;
use factorito::world::GameWorld;
use factorito::belt::update_tiles;
use factorito::furnace::update_item_processors;
use factorito::inserter::{update_movers, update_rotating_tiles};
use factorito::miner::update_miners;
use factorito::tick::fixed_tick;

fn empty_world() -> GameWorld {
    GameWorld {
        grid: GridIndex { tiles: Vec::new(), resources: Vec::new() },
        items: ItemRegistry { items: Vec::new() },
    }
}

fn belt_at(x: i64, y: i64, rotation: u8) -> PlacedTile {
    PlacedTile {
        kind: MachineKind::Belt,
        rotation,
        coord: Coord { x, y },
        behavior: Behavior::Transport,
    }
}

fn miner_at(x: i64, y: i64, rotation: u8, resource: ResourceKind) -> PlacedTile {
    PlacedTile {
        kind: MachineKind::Miner,
        rotation,
        coord: Coord { x, y },
        behavior: Behavior::Producer(ProducerState {
            timer: SimTimer::new(MINER_PERIOD_MS),
            resource,
        }),
    }
}

fn furnace_at(x: i64, y: i64, state: ProcessorState) -> PlacedTile {
    PlacedTile {
        kind: MachineKind::Furnace,
        rotation: 0,
        coord: Coord { x, y },
        behavior: Behavior::Processor(state),
    }
}

fn inserter_at(x: i64, y: i64, rotation: u8, arm: ArmState) -> PlacedTile {
    PlacedTile {
        kind: MachineKind::Inserter,
        rotation,
        coord: Coord { x, y },
        behavior: Behavior::Arm(arm),
    }
}

fn idle_furnace() -> ProcessorState {
    ProcessorState { timer: SimTimer::new(FURNACE_PERIOD_MS), input: None, output: None }
}

#[test]
fn belt_moves_item_and_centers_it() {
    let mut w = empty_world();
    w.grid.tiles.push(belt_at(1, 0, 0));
    w.items.items.push(DroppedItem { kind: ItemKind::IronOre, pos: Pos { x: 32, y: -8 } });
    update_tiles(&mut w);
    assert_eq!(w.items.items[0].pos, Pos { x: 33, y: -7 });
    assert_eq!(w.items.items[0].kind, ItemKind::IronOre);
}

#[test]
fn belt_does_not_close_below_min_separation() {
    let mut w = empty_world();
    w.grid.tiles.push(belt_at(1, 0, 0));
    // Both items sit on the belt, fifteen units apart along its axis.
    w.items.items.push(DroppedItem { kind: ItemKind::Coal, pos: Pos { x: 32, y: 0 } });
    w.items.items.push(DroppedItem { kind: ItemKind::Coal, pos: Pos { x: 47, y: 0 } });
    update_tiles(&mut w);
    // The trailing item would end up 14 < 15 away: its advance is blocked.
    assert_eq!(w.items.items[0].pos, Pos { x: 32, y: 0 });
    // The leading item moves away freely.
    assert_eq!(w.items.items[1].pos, Pos { x: 48, y: 0 });
}

#[test]
fn belt_keeps_min_separation_at_threshold() {
    let mut w = empty_world();
    w.grid.tiles.push(belt_at(1, 0, 0));
    w.items.items.push(DroppedItem { kind: ItemKind::Coal, pos: Pos { x: 32, y: 0 } });
    w.items.items.push(DroppedItem { kind: ItemKind::Coal, pos: Pos { x: 46, y: 0 } });
    update_tiles(&mut w);
    assert_eq!(w.items.items[0].pos, Pos { x: 32, y: 0 });
    assert_eq!(w.items.items[1].pos, Pos { x: 47, y: 0 });
    let dx = w.items.items[1].pos.x - w.items.items[0].pos.x;
    assert!(dx >= 14);
}

#[test]
fn vertical_belt_keeps_separation_on_its_lane() {
    let mut w = empty_world();
    w.grid.tiles.push(belt_at(0, 1, 1));
    w.grid.tiles.push(belt_at(0, 2, 1));
    // Two centered items head-to-tail on a northward lane, 15 apart.
    w.items.items.push(DroppedItem { kind: ItemKind::Coal, pos: Pos { x: 0, y: 32 } });
    w.items.items.push(DroppedItem { kind: ItemKind::Coal, pos: Pos { x: 0, y: 47 } });
    update_tiles(&mut w);
    assert_eq!(w.items.items[0].pos, Pos { x: 0, y: 32 });
    assert_eq!(w.items.items[1].pos, Pos { x: 0, y: 48 });
}

#[test]
fn item_off_the_belt_does_not_move() {
    let mut w = empty_world();
    w.grid.tiles.push(belt_at(1, 0, 0));
    w.items.items.push(DroppedItem { kind: ItemKind::Coal, pos: Pos { x: 100, y: 0 } });
    update_tiles(&mut w);
    assert_eq!(w.items.items[0].pos, Pos { x: 100, y: 0 });
}

#[test]
fn miner_emits_one_item_after_its_period() {
    let mut w = empty_world();
    w.grid.resources.push(ResourceTile { resource: ResourceKind::IronOre, coord: Coord { x: 0, y: 0 } });
    w.grid.tiles.push(miner_at(0, 0, 0, ResourceKind::IronOre));
    update_miners(&mut w, 999);
    assert_eq!(w.items.items.len(), 0);
    update_miners(&mut w, 1);
    assert_eq!(w.items.items.len(), 1);
    assert_eq!(w.items.items[0].kind, ItemKind::IronOre);
    // Facing east: a quarter cell across, three quarters along the facing.
    assert_eq!(w.items.items[0].pos, Pos { x: 32, y: -8 });
}

#[test]
fn miner_emits_at_most_one_item_per_tick() {
    let mut w = empty_world();
    w.grid.resources.push(ResourceTile { resource: ResourceKind::IronOre, coord: Coord { x: 0, y: 0 } });
    w.grid.tiles.push(miner_at(0, 0, 0, ResourceKind::IronOre));
    update_miners(&mut w, 5000);
    assert_eq!(w.items.items.len(), 1);
}

#[test]
fn miner_cadence_is_one_item_per_period() {
    let mut w = empty_world();
    w.grid.resources.push(ResourceTile { resource: ResourceKind::IronOre, coord: Coord { x: 0, y: 0 } });
    w.grid.tiles.push(miner_at(0, 0, 0, ResourceKind::IronOre));
    let mut emitted: usize = 0;
    for _ in 0..10 {
        update_miners(&mut w, 500);
        emitted += w.items.items.len();
        // Clear the output so backpressure does not block the next cycle.
        w.items.items.clear();
    }
    assert_eq!(emitted, 5);
}

#[test]
fn miner_without_matching_resource_stays_silent() {
    let mut w = empty_world();
    w.grid.resources.push(ResourceTile { resource: ResourceKind::Coal, coord: Coord { x: 0, y: 0 } });
    w.grid.tiles.push(miner_at(0, 0, 0, ResourceKind::IronOre));
    update_miners(&mut w, 1000);
    assert_eq!(w.items.items.len(), 0);
}

#[test]
fn miner_blocked_spawn_point_stalls() {
    let mut w = empty_world();
    w.grid.resources.push(ResourceTile { resource: ResourceKind::IronOre, coord: Coord { x: 0, y: 0 } });
    w.grid.tiles.push(miner_at(0, 0, 0, ResourceKind::IronOre));
    w.items.items.push(DroppedItem { kind: ItemKind::Coal, pos: Pos { x: 30, y: -6 } });
    update_miners(&mut w, 1000);
    assert_eq!(w.items.items.len(), 1);
}

#[test]
fn furnace_converts_iron_ore_to_iron_sheet() {
    let mut w = empty_world();
    let mut st = idle_furnace();
    st.input = Some(ItemKind::IronOre);
    w.grid.tiles.push(furnace_at(0, 0, st));
    update_item_processors(&mut w, 1500);
    match w.grid.tiles[0].behavior {
        Behavior::Processor(p) => {
            assert_eq!(p.input, Some(ItemKind::IronOre));
            assert_eq!(p.output, None);
        }
        _ => panic!("expected a furnace"),
    }
    update_item_processors(&mut w, 1500);
    match w.grid.tiles[0].behavior {
        Behavior::Processor(p) => {
            assert_eq!(p.input, None);
            assert_eq!(p.output, Some(OutputStack { kind: ItemKind::IronSheet, count: 1 }));
            assert_eq!(p.timer.elapsed_ms, 0);
        }
        _ => panic!("expected a furnace"),
    }
}

#[test]
fn furnace_rejects_mismatched_output_stack() {
    let mut w = empty_world();
    let st = ProcessorState {
        timer: SimTimer::new(FURNACE_PERIOD_MS),
        input: Some(ItemKind::CopperOre),
        output: Some(OutputStack { kind: ItemKind::IronSheet, count: 1 }),
    };
    w.grid.tiles.push(furnace_at(0, 0, st));
    for _ in 0..5 {
        update_item_processors(&mut w, 3000);
    }
    match w.grid.tiles[0].behavior {
        Behavior::Processor(p) => {
            // The conversion is rejected: the input keeps the new ore and
            // the output stack is unchanged.
            assert_eq!(p.input, Some(ItemKind::CopperOre));
            assert_eq!(p.output, Some(OutputStack { kind: ItemKind::IronSheet, count: 1 }));
        }
        _ => panic!("expected a furnace"),
    }
}

#[test]
fn furnace_rejects_unmapped_input_kind() {
    let mut w = empty_world();
    let mut st = idle_furnace();
    st.input = Some(ItemKind::Coal);
    w.grid.tiles.push(furnace_at(0, 0, st));
    update_item_processors(&mut w, 10000);
    match w.grid.tiles[0].behavior {
        Behavior::Processor(p) => {
            assert_eq!(p.input, Some(ItemKind::Coal));
            assert_eq!(p.output, None);
        }
        _ => panic!("expected a furnace"),
    }
}

#[test]
fn arm_progress_advances_and_clamps() {
    let mut w = empty_world();
    w.grid.tiles.push(inserter_at(0, 0, 0, ArmState { progress: 0, to_front: true, carrying: None }));
    update_rotating_tiles(&mut w, 250);
    match w.grid.tiles[0].behavior {
        Behavior::Arm(a) => assert_eq!(a.progress, 500),
        _ => panic!("expected an inserter"),
    }
    update_rotating_tiles(&mut w, 400);
    match w.grid.tiles[0].behavior {
        Behavior::Arm(a) => assert_eq!(a.progress, ARM_SWEEP),
        _ => panic!("expected an inserter"),
    }
}

#[test]
fn inserter_picks_up_and_places_without_losing_items() {
    let mut w = empty_world();
    // Arm resting at its back endpoint, tip at (-45, 0).
    w.grid.tiles.push(inserter_at(0, 0, 0, ArmState {
        progress: ARM_SWEEP,
        to_front: false,
        carrying: None,
    }));
    w.items.items.push(DroppedItem { kind: ItemKind::CopperOre, pos: Pos { x: -45, y: 0 } });
    update_movers(&mut w);
    assert_eq!(w.items.items.len(), 0);
    match w.grid.tiles[0].behavior {
        Behavior::Arm(a) => {
            assert_eq!(a.carrying, Some(ItemKind::CopperOre));
            assert_eq!(a.progress, 0);
            assert!(a.to_front);
        }
        _ => panic!("expected an inserter"),
    }
    // Sweep to the front endpoint and drop on clear ground.
    update_rotating_tiles(&mut w, 500);
    update_movers(&mut w);
    assert_eq!(w.items.items.len(), 1);
    assert_eq!(w.items.items[0].kind, ItemKind::CopperOre);
    assert_eq!(w.items.items[0].pos, Pos { x: 45 + 8, y: 0 - 8 });
    match w.grid.tiles[0].behavior {
        Behavior::Arm(a) => {
            assert_eq!(a.carrying, None);
            assert!(!a.to_front);
        }
        _ => panic!("expected an inserter"),
    }
}

#[test]
fn inserter_feeds_a_furnace() {
    let mut w = empty_world();
    w.grid.tiles.push(inserter_at(0, 0, 0, ArmState {
        progress: ARM_SWEEP,
        to_front: true,
        carrying: Some(ItemKind::IronOre),
    }));
    w.grid.tiles.push(furnace_at(1, 0, idle_furnace()));
    update_movers(&mut w);
    match w.grid.tiles[1].behavior {
        Behavior::Processor(p) => assert_eq!(p.input, Some(ItemKind::IronOre)),
        _ => panic!("expected a furnace"),
    }
    match w.grid.tiles[0].behavior {
        Behavior::Arm(a) => assert_eq!(a.carrying, None),
        _ => panic!("expected an inserter"),
    }
}

#[test]
fn inserter_takes_from_a_furnace_output() {
    let mut w = empty_world();
    w.grid.tiles.push(inserter_at(0, 0, 0, ArmState {
        progress: ARM_SWEEP,
        to_front: true,
        carrying: None,
    }));
    let st = ProcessorState {
        timer: SimTimer::new(FURNACE_PERIOD_MS),
        input: None,
        output: Some(OutputStack { kind: ItemKind::IronSheet, count: 2 }),
    };
    w.grid.tiles.push(furnace_at(1, 0, st));
    update_movers(&mut w);
    match w.grid.tiles[1].behavior {
        Behavior::Processor(p) => {
            assert_eq!(p.output, Some(OutputStack { kind: ItemKind::IronSheet, count: 1 }))
        }
        _ => panic!("expected a furnace"),
    }
    match w.grid.tiles[0].behavior {
        Behavior::Arm(a) => assert_eq!(a.carrying, Some(ItemKind::IronSheet)),
        _ => panic!("expected an inserter"),
    }
}

#[test]
fn inserter_backpressure_holds_the_item() {
    let mut w = empty_world();
    w.grid.tiles.push(inserter_at(0, 0, 0, ArmState {
        progress: ARM_SWEEP,
        to_front: true,
        carrying: Some(ItemKind::IronOre),
    }));
    let mut st = idle_furnace();
    st.input = Some(ItemKind::CopperOre);
    w.grid.tiles.push(furnace_at(1, 0, st));
    update_movers(&mut w);
    // The furnace input slot is taken: the arm keeps carrying and holds
    // at the endpoint; nothing is dropped or lost.
    match w.grid.tiles[0].behavior {
        Behavior::Arm(a) => {
            assert_eq!(a.carrying, Some(ItemKind::IronOre));
            assert_eq!(a.progress, ARM_SWEEP);
            assert!(a.to_front);
        }
        _ => panic!("expected an inserter"),
    }
    assert_eq!(w.items.items.len(), 0);
}

#[test]
fn fixed_tick_runs_a_miner_and_a_belt() {
    let mut w = empty_world();
    w.grid.resources.push(ResourceTile { resource: ResourceKind::IronOre, coord: Coord { x: 0, y: 0 } });
    w.grid.tiles.push(miner_at(0, 0, 0, ResourceKind::IronOre));
    w.grid.tiles.push(belt_at(1, 0, 0));
    fixed_tick(&mut w, 1000);
    assert_eq!(w.items.items.len(), 1);
    assert_eq!(w.items.items[0].pos, Pos { x: 32, y: -8 });
    fixed_tick(&mut w, 1000);
    // The belt carried the item one unit east and one toward its
    // centerline; the miner's second emission is blocked by it.
    assert_eq!(w.items.items.len(), 1);
    assert_eq!(w.items.items[0].pos, Pos { x: 33, y: -7 });
}

#[test]
fn item_rides_the_belt_until_it_leaves_the_footprint() {
    let mut w = empty_world();
    w.grid.tiles.push(belt_at(1, 0, 0));
    w.items.items.push(DroppedItem { kind: ItemKind::IronOre, pos: Pos { x: 32, y: -8 } });
    for _ in 0..30 {
        fixed_tick(&mut w, 1000);
    }
    // It advances one unit per tick along +x (centering onto y = 0 on the
    // way) until its anchor leaves the belt's footprint at x + 8 = 64.
    assert_eq!(w.items.items.len(), 1);
    assert_eq!(w.items.items[0].pos, Pos { x: 56, y: 0 });
}
