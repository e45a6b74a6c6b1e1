//! The grid index, the inventory, the timers, the placement protocol and
//! world generation.

use factorito::actions::{
    InputState, KeyCommand, apply_key_command, delete_at_cursor, drag_place, drop_held_items,
    handle_player_actions, hanle_player_inventory_ui_events, mouse_button_events, pick_up_items,
    update_preview_tile,
};
use factorito::geom::{Coord, Pos};
use factorito::grid::{
    Behavior, GridIndex, MINER_PERIOD_MS, PlacedTile, ResourceTile,
};
use factorito::inventory::Player;
use factorito::items::{DroppedItem, ItemRegistry};
use factorito::kinds::{
    ItemKind, MachineKind, ResourceKind, item_texture_name, machine_rotating_texture_name,
    machine_texture_name, resource_texture_name,
};
use factorito::timer::SimTimer;
use factorito::world::GameWorld;
use factorito::worldgen::generate_world;

fn empty_world() -> GameWorld {
    GameWorld {
        grid: GridIndex { tiles: Vec::new(), resources: Vec::new() },
        items: ItemRegistry { items: Vec::new() },
    }
}

fn belt_tile(x: i64, y: i64) -> PlacedTile {
    PlacedTile {
        kind: MachineKind::Belt,
        rotation: 0,
        coord: Coord { x, y },
        behavior: Behavior::Transport,
    }
}

fn idle_input() -> InputState {
    InputState::new()
}

#[test]
fn grid_place_then_get() {
    let mut g = GridIndex::new();
    assert!(g.place(belt_tile(2, 3)));
    let got = g.get(Coord { x: 2, y: 3 }).expect("machine should be there");
    assert_eq!(got.kind, MachineKind::Belt);
    assert!(g.get(Coord { x: 2, y: 4 }).is_none());
}

#[test]
fn grid_insert_twice_is_a_noop() {
    let mut g = GridIndex::new();
    assert!(g.place(belt_tile(0, 0)));
    let second = PlacedTile {
        kind: MachineKind::Furnace,
        rotation: 1,
        coord: Coord { x: 0, y: 0 },
        behavior: Behavior::Processor(factorito::grid::ProcessorState {
            timer: SimTimer::new(3000),
            input: None,
            output: None,
        }),
    };
    assert!(!g.place(second));
    let got = g.get(Coord { x: 0, y: 0 }).expect("first machine stays");
    assert_eq!(got.kind, MachineKind::Belt);
}

#[test]
fn grid_remove_frees_the_cell() {
    let mut g = GridIndex::new();
    assert!(g.place(belt_tile(1, 1)));
    let removed = g.remove(Coord { x: 1, y: 1 }).expect("machine removed");
    assert_eq!(removed.kind, MachineKind::Belt);
    assert!(g.get(Coord { x: 1, y: 1 }).is_none());
    assert!(g.remove(Coord { x: 1, y: 1 }).is_none());
    assert!(g.place(belt_tile(1, 1)));
}

#[test]
fn grid_resource_lookup() {
    let mut g = GridIndex::new();
    assert!(g.place_resource(ResourceTile { resource: ResourceKind::Coal, coord: Coord { x: 5, y: 5 } }));
    assert_eq!(g.resource_at(Coord { x: 5, y: 5 }), Some(ResourceKind::Coal));
    assert_eq!(g.resource_at(Coord { x: 5, y: 6 }), None);
    // A second resource tile on the same cell is a no-op: first wins.
    assert!(!g.place_resource(ResourceTile { resource: ResourceKind::IronOre, coord: Coord { x: 5, y: 5 } }));
    assert_eq!(g.resource_at(Coord { x: 5, y: 5 }), Some(ResourceKind::Coal));
}

#[test]
fn inventory_increment_and_decrement() {
    let mut p = Player::new();
    assert!(p.increment_inventory(ItemKind::Belt));
    assert!(p.increment_inventory(ItemKind::Belt));
    assert!(p.has_item_in_inventory(ItemKind::Belt));
    assert!(p.decrement_inventory(ItemKind::Belt));
    assert!(p.has_item_in_inventory(ItemKind::Belt));
    assert!(p.decrement_inventory(ItemKind::Belt));
    assert!(!p.has_item_in_inventory(ItemKind::Belt));
    // Zero-count entries are pruned immediately.
    assert!(p.inventory.is_empty());
}

#[test]
fn inventory_updates_are_in_place_and_ordered() {
    let mut p = Player::new();
    p.increment_inventory(ItemKind::Belt);
    p.increment_inventory(ItemKind::Miner);
    p.increment_inventory(ItemKind::Furnace);
    p.increment_inventory(ItemKind::Miner);
    assert_eq!(
        p.inventory,
        vec![(ItemKind::Belt, 1), (ItemKind::Miner, 2), (ItemKind::Furnace, 1)]
    );
    // Adding a unit and taking it out again is the identity on the list:
    // a fresh entry is pruned away, an in-place bump is undone in place.
    let snapshot = p.inventory.clone();
    p.increment_inventory(ItemKind::Inserter);
    p.decrement_inventory(ItemKind::Inserter);
    assert_eq!(p.inventory, snapshot);
    p.increment_inventory(ItemKind::Miner);
    p.decrement_inventory(ItemKind::Miner);
    assert_eq!(p.inventory, snapshot);
    // Decrements touch only the entry of their kind and keep the order.
    p.decrement_inventory(ItemKind::Miner);
    assert_eq!(
        p.inventory,
        vec![(ItemKind::Belt, 1), (ItemKind::Miner, 1), (ItemKind::Furnace, 1)]
    );
    p.decrement_inventory(ItemKind::Miner);
    assert_eq!(p.inventory, vec![(ItemKind::Belt, 1), (ItemKind::Furnace, 1)]);
}

#[test]
fn inventory_decrement_missing_kind_fails() {
    let mut p = Player::new();
    assert!(p.increment_inventory(ItemKind::Miner));
    assert!(!p.decrement_inventory(ItemKind::Furnace));
    assert_eq!(p.inventory, vec![(ItemKind::Miner, 1)]);
}

#[test]
fn timer_one_shot_saturates() {
    let mut t = SimTimer::new(1000);
    assert!(!t.tick(400));
    assert_eq!(t.elapsed_ms, 400);
    assert!(t.tick(700));
    assert_eq!(t.elapsed_ms, 1000);
    assert!(t.tick(5));
    t.reset();
    assert_eq!(t.elapsed_ms, 0);
}

#[test]
fn timer_repeating_rolls_over() {
    let mut t = SimTimer::new(100);
    assert!(!t.tick_repeating(60));
    assert!(t.tick_repeating(60));
    assert_eq!(t.elapsed_ms, 20);
    assert!(!t.tick_repeating(60));
    assert_eq!(t.elapsed_ms, 80);
}

#[test]
fn dropping_takes_from_inventory_and_spawns() {
    let mut w = empty_world();
    let mut p = Player::new();
    p.increment_inventory(ItemKind::Belt);
    p.increment_inventory(ItemKind::Belt);
    let mut input = idle_input();
    input.dropping_items = true;
    input.item_in_hand = Some(ItemKind::Belt);
    drop_held_items(&mut w, &mut p, &mut input, Pos { x: 0, y: 0 }, 16);
    assert_eq!(w.items.items.len(), 1);
    assert_eq!(w.items.items[0].kind, ItemKind::Belt);
    assert_eq!(w.items.items[0].pos, Pos { x: 8, y: -8 });
    assert_eq!(p.inventory, vec![(ItemKind::Belt, 1)]);
    assert_eq!(input.item_in_hand, Some(ItemKind::Belt));
}

#[test]
fn dropping_the_last_unit_empties_the_hand() {
    let mut w = empty_world();
    let mut p = Player::new();
    p.increment_inventory(ItemKind::Furnace);
    let mut input = idle_input();
    input.dropping_items = true;
    input.item_in_hand = Some(ItemKind::Furnace);
    drop_held_items(&mut w, &mut p, &mut input, Pos { x: 0, y: 0 }, 16);
    assert_eq!(w.items.items.len(), 1);
    assert_eq!(input.item_in_hand, None);
    assert!(p.inventory.is_empty());
}

#[test]
fn picking_up_moves_an_item_into_the_inventory() {
    let mut w = empty_world();
    w.items.items.push(DroppedItem { kind: ItemKind::CopperOre, pos: Pos { x: 8, y: -8 } });
    let mut p = Player::new();
    let mut input = idle_input();
    input.picking_items = true;
    pick_up_items(&mut w, &mut p, &mut input, Pos { x: 0, y: 0 }, 16);
    assert_eq!(w.items.items.len(), 0);
    assert_eq!(p.inventory, vec![(ItemKind::CopperOre, 1)]);
}

#[test]
fn deleting_removes_the_machine_after_the_repeat_delay() {
    let mut w = empty_world();
    w.grid.tiles.push(belt_tile(1, 0));
    let mut input = idle_input();
    input.deleting_tile = true;
    // The first frame only arms the repeat timer.
    delete_at_cursor(&mut w, &mut input, Pos { x: 32, y: 0 }, 16);
    assert_eq!(w.grid.tiles.len(), 1);
    // Half a second later the delete fires.
    delete_at_cursor(&mut w, &mut input, Pos { x: 32, y: 0 }, 500);
    assert_eq!(w.grid.tiles.len(), 0);
}

#[test]
fn deleting_over_a_resource_drills_one_ore_and_keeps_the_tile() {
    let mut w = empty_world();
    w.grid.resources.push(ResourceTile { resource: ResourceKind::CopperOre, coord: Coord { x: 0, y: 0 } });
    let mut input = idle_input();
    input.deleting_tile = true;
    delete_at_cursor(&mut w, &mut input, Pos { x: 0, y: 0 }, 16);
    delete_at_cursor(&mut w, &mut input, Pos { x: 0, y: 0 }, 500);
    assert_eq!(w.items.items.len(), 1);
    assert_eq!(w.items.items[0].kind, ItemKind::CopperOre);
    assert_eq!(w.items.items[0].pos, Pos { x: 8, y: -8 });
    // The deposit is not consumed by hand drilling.
    assert_eq!(w.grid.resources.len(), 1);
}

#[test]
fn drag_places_a_row_of_belts_and_pays_for_them() {
    let mut w = empty_world();
    let mut p = Player::new();
    for _ in 0..100 {
        p.increment_inventory(ItemKind::Belt);
    }
    let mut input = idle_input();
    input.drag_start = Some(Pos { x: 0, y: 0 });
    input.item_in_hand = Some(ItemKind::Belt);
    drag_place(&mut w, &mut p, &input, Pos { x: 96, y: 0 });
    assert_eq!(w.grid.tiles.len(), 4);
    for (i, t) in w.grid.tiles.iter().enumerate() {
        assert_eq!(t.kind, MachineKind::Belt);
        assert_eq!(t.rotation, 0);
        assert_eq!(t.coord, Coord { x: i as i64, y: 0 });
    }
    assert_eq!(p.inventory, vec![(ItemKind::Belt, 96)]);
}

#[test]
fn drag_placement_skips_occupied_cells_and_stops_when_broke() {
    let mut w = empty_world();
    w.grid.tiles.push(belt_tile(0, 0));
    let mut p = Player::new();
    p.increment_inventory(ItemKind::Miner);
    let mut input = idle_input();
    input.drag_start = Some(Pos { x: 0, y: 0 });
    input.item_in_hand = Some(ItemKind::Miner);
    drag_place(&mut w, &mut p, &input, Pos { x: 96, y: 0 });
    // Cell 0 was occupied; one miner affords one placement at cell 1.
    assert_eq!(w.grid.tiles.len(), 2);
    assert_eq!(w.grid.tiles[1].kind, MachineKind::Miner);
    assert_eq!(w.grid.tiles[1].coord, Coord { x: 1, y: 0 });
    assert!(p.inventory.is_empty());
}

#[test]
fn placing_a_miner_over_ore_binds_it_to_the_resource() {
    let mut w = empty_world();
    w.grid.resources.push(ResourceTile { resource: ResourceKind::IronOre, coord: Coord { x: 0, y: 0 } });
    let mut p = Player::new();
    p.increment_inventory(ItemKind::Miner);
    let mut input = idle_input();
    input.drag_start = Some(Pos { x: 0, y: 0 });
    input.item_in_hand = Some(ItemKind::Miner);
    drag_place(&mut w, &mut p, &input, Pos { x: 0, y: 0 });
    assert_eq!(w.grid.tiles.len(), 1);
    match w.grid.tiles[0].behavior {
        Behavior::Producer(ps) => {
            assert_eq!(ps.resource, ResourceKind::IronOre);
            assert_eq!(ps.timer.period_ms, MINER_PERIOD_MS);
        }
        _ => panic!("a miner over ore should be a producer"),
    }
}

#[test]
fn placing_a_miner_on_bare_ground_leaves_it_inert() {
    let mut w = empty_world();
    let mut p = Player::new();
    p.increment_inventory(ItemKind::Miner);
    let mut input = idle_input();
    input.drag_start = Some(Pos { x: 0, y: 0 });
    input.item_in_hand = Some(ItemKind::Miner);
    drag_place(&mut w, &mut p, &input, Pos { x: 0, y: 0 });
    assert_eq!(w.grid.tiles.len(), 1);
    assert!(matches!(w.grid.tiles[0].behavior, Behavior::Inert));
}

#[test]
fn handle_player_actions_without_a_pointer_does_nothing() {
    let mut w = empty_world();
    w.grid.tiles.push(belt_tile(4, 4));
    let mut p = Player::new();
    p.increment_inventory(ItemKind::Belt);
    let mut input = idle_input();
    input.dropping_items = true;
    input.item_in_hand = Some(ItemKind::Belt);
    handle_player_actions(&mut w, &mut p, &mut input, None, 16);
    assert_eq!(w.grid.tiles.len(), 1);
    assert_eq!(w.items.items.len(), 0);
    assert_eq!(p.inventory, vec![(ItemKind::Belt, 1)]);
}

#[test]
fn handle_player_actions_runs_the_drag() {
    let mut w = empty_world();
    let mut p = Player::new();
    for _ in 0..10 {
        p.increment_inventory(ItemKind::Belt);
    }
    let mut input = idle_input();
    input.drag_start = Some(Pos { x: 0, y: 0 });
    input.item_in_hand = Some(ItemKind::Belt);
    handle_player_actions(&mut w, &mut p, &mut input, Some(Pos { x: 32, y: 0 }), 16);
    assert_eq!(w.grid.tiles.len(), 2);
    assert_eq!(p.inventory, vec![(ItemKind::Belt, 8)]);
}

#[test]
fn preview_shows_the_hovered_free_cell() {
    let mut w = empty_world();
    let mut input = idle_input();
    input.item_in_hand = Some(ItemKind::Furnace);
    input.rotation = 2;
    let r = update_preview_tile(&w, &input, Some(Pos { x: 40, y: 0 }));
    assert_eq!(r, Some((Coord { x: 1, y: 0 }, MachineKind::Furnace, 2)));
    w.grid.tiles.push(belt_tile(1, 0));
    let r2 = update_preview_tile(&w, &input, Some(Pos { x: 40, y: 0 }));
    assert_eq!(r2, None);
    assert_eq!(update_preview_tile(&w, &input, None), None);
    input.item_in_hand = Some(ItemKind::Coal);
    assert_eq!(update_preview_tile(&w, &input, Some(Pos { x: 200, y: 0 })), None);
}

#[test]
fn clicking_an_inventory_slot_selects_its_kind() {
    let mut p = Player::new();
    p.increment_inventory(ItemKind::Belt);
    p.increment_inventory(ItemKind::Inserter);
    let mut input = idle_input();
    hanle_player_inventory_ui_events(&mut input, &p, Some(1));
    assert_eq!(input.item_in_hand, Some(ItemKind::Inserter));
    hanle_player_inventory_ui_events(&mut input, &p, Some(9));
    assert_eq!(input.item_in_hand, Some(ItemKind::Inserter));
    hanle_player_inventory_ui_events(&mut input, &p, None);
    assert_eq!(input.item_in_hand, Some(ItemKind::Inserter));
}

#[test]
fn generated_world_stays_within_the_generation_radius() {
    let mut g = GridIndex::new();
    generate_world(&mut g, 42);
    assert!(g.tiles.is_empty());
    // A hundred patches of at least five tiles each: plenty of tiles, all
    // within reach of the origin, at most one per cell.
    assert!(g.resources.len() >= 100);
    for rt in g.resources.iter() {
        assert!(rt.coord.x >= -140 && rt.coord.x <= 140);
        assert!(rt.coord.y >= -140 && rt.coord.y <= 140);
    }
    for i in 0..g.resources.len() {
        for j in (i + 1)..g.resources.len() {
            assert!(g.resources[i].coord != g.resources[j].coord);
        }
    }
}

#[test]
fn mouse_buttons_drive_drag_and_delete() {
    let mut input = idle_input();
    mouse_button_events(&mut input, Some(Pos { x: 10, y: 20 }), true, false);
    assert_eq!(input.drag_start, Some(Pos { x: 10, y: 20 }));
    assert!(!input.deleting_tile);
    mouse_button_events(&mut input, Some(Pos { x: 11, y: 20 }), false, true);
    assert_eq!(input.drag_start, None);
    assert!(input.deleting_tile);
    mouse_button_events(&mut input, Some(Pos { x: 12, y: 20 }), true, true);
    mouse_button_events(&mut input, None, true, true);
    assert_eq!(input.drag_start, None);
    assert!(input.deleting_tile);
}

#[test]
fn key_commands_drive_rotation_and_hand() {
    let mut input = idle_input();
    apply_key_command(&mut input, KeyCommand::RotateHand);
    assert_eq!(input.rotation, 1);
    apply_key_command(&mut input, KeyCommand::RotateHand);
    apply_key_command(&mut input, KeyCommand::RotateHand);
    apply_key_command(&mut input, KeyCommand::RotateHand);
    assert_eq!(input.rotation, 0);
    apply_key_command(&mut input, KeyCommand::SelectFurnace);
    assert_eq!(input.item_in_hand, Some(ItemKind::Furnace));
    apply_key_command(&mut input, KeyCommand::ClearHand);
    assert_eq!(input.item_in_hand, None);
}

#[test]
fn texture_names_match_the_asset_layout() {
    assert_eq!(item_texture_name(ItemKind::IronSheet), "iron_sheet");
    assert_eq!(item_texture_name(ItemKind::Coal), "coal");
    assert_eq!(resource_texture_name(ResourceKind::CopperOre), "copper_ore");
    assert_eq!(machine_texture_name(MachineKind::Inserter), "inserter_base");
    assert_eq!(machine_rotating_texture_name(MachineKind::Inserter), Some("inserter_hand"));
    assert_eq!(machine_rotating_texture_name(MachineKind::Belt), None);
}

#[test]
fn generation_is_deterministic_per_seed() {
    let mut g1 = GridIndex::new();
    let mut g2 = GridIndex::new();
    generate_world(&mut g1, 7);
    generate_world(&mut g2, 7);
    assert_eq!(g1.resources.len(), g2.resources.len());
    for (a, b) in g1.resources.iter().zip(g2.resources.iter()) {
        assert_eq!(a.coord, b.coord);
        assert_eq!(a.resource, b.resource);
    }
}
