use sand::cells::{Cell, RadialSpawner, Spawner};
use sand::game::GameState;
use sand::input::{get_key_bindings, material_for, update_spawner, InputEvent, Key};
use sand::render::{get_cell_color, hud_slot, Rgb, MAP_SIZE, SCREEN_SIZE};
use sand::rules::{FIRE_HEAT, WOOD_FUEL};

fn in_brush(dx: i32, dy: i32) -> bool {
    (0..9).contains(&dy) && dx >= 0 && dx < if (2..=6).contains(&dy) { 9 } else { 7 }
}

fn stamped(s: &mut RadialSpawner, size: i32) -> Vec<(Cell, i32, i32)> {
    let mut g = GameState::new(size);
    s.spawn(&mut g);
    let side = (g.blocks.len() * 16) as i32;
    let mut found = Vec::new();
    for y in 0..side {
        for x in 0..side {
            let c = *g.read_cell(x, y);
            if c != Cell::Air {
                found.push((c, x, y));
            }
        }
    }
    found
}

#[test]
fn a_new_spawner_is_switched_off() {
    let mut s = RadialSpawner::new(5, 5);
    assert_eq!(stamped(&mut s, 32), vec![]);
}

#[test]
fn an_enabled_spawner_stamps_sand_through_the_round_brush() {
    let mut s = RadialSpawner::new(5, 7);
    s.enable();
    let found = stamped(&mut s, 32);
    assert_eq!(found.len(), 73);
    for x in 0..32 {
        for y in 0..32 {
            let hit = found.contains(&(Cell::Sand, x, y));
            assert_eq!(hit, in_brush(x - 5, y - 7), "at ({}, {})", x, y);
        }
    }
}

#[test]
fn the_brush_has_rows_of_seven_and_of_nine() {
    let mut s = RadialSpawner::new(0, 0);
    s.enable();
    let found = stamped(&mut s, 16);
    for y in 0..9 {
        let width = found.iter().filter(|(_, _, cy)| *cy == y).count();
        assert_eq!(width, if (2..=6).contains(&y) { 9 } else { 7 });
    }
    assert_eq!(found.iter().filter(|(_, _, cy)| *cy >= 9).count(), 0);
}

#[test]
fn spawn_marks_the_blocks_that_it_writes_in() {
    let mut s = RadialSpawner::new(12, 20);
    s.enable();
    let mut g = GameState::new(48);
    for bx in 0..3 {
        for by in 0..3 {
            g.blocks[bx][by].dirty = false;
        }
    }
    s.spawn(&mut g);
    for bx in 0..3 {
        for by in 0..3 {
            assert_eq!(g.blocks[bx][by].dirty, bx <= 1 && by == 1, "block ({}, {})", bx, by);
        }
    }
}

#[test]
fn spawn_is_clipped_at_the_edges() {
    let mut s = RadialSpawner::new(-3, 28);
    s.enable();
    let found = stamped(&mut s, 32);
    for x in 0..32 {
        for y in 0..32 {
            assert_eq!(found.contains(&(Cell::Sand, x, y)), in_brush(x + 3, y - 28));
        }
    }
    assert_eq!(found.len(), 4 + 4 + 6 + 6);
}

#[test]
fn spawn_far_off_the_grid_writes_nothing() {
    for (x, y) in [(i32::MAX, i32::MAX), (i32::MAX - 3, 0), (0, i32::MAX - 8), (i32::MIN, i32::MIN), (100, 100)] {
        let mut s = RadialSpawner::new(x, y);
        s.enable();
        assert_eq!(stamped(&mut s, 32), vec![]);
    }
}

#[test]
fn set_pos_moves_the_brush() {
    let mut s = RadialSpawner::new(0, 0);
    s.enable();
    s.set_pos(20, 10);
    let found = stamped(&mut s, 32);
    assert_eq!(found.len(), 73);
    assert!(found.contains(&(Cell::Sand, 20, 10)));
    assert!(found.contains(&(Cell::Sand, 28, 12)));
    assert!(!found.contains(&(Cell::Sand, 19, 10)));
    assert!(!found.contains(&(Cell::Sand, 27, 10)));
}

#[test]
fn disable_switches_the_spawner_off_again() {
    let mut s = RadialSpawner::new(0, 0);
    s.enable();
    s.disable();
    assert_eq!(stamped(&mut s, 32), vec![]);
    s.enable();
    assert_eq!(stamped(&mut s, 32).len(), 73);
}

#[test]
fn set_cell_changes_the_material() {
    let mut s = RadialSpawner::new(0, 0);
    s.enable();
    s.set_cell(Cell::Water { dx: 0 });
    let found = stamped(&mut s, 32);
    assert_eq!(found.len(), 73);
    assert!(found.iter().all(|(c, _, _)| *c == Cell::Water { dx: 0 }));
}

#[test]
fn spawn_writes_over_what_is_there() {
    let mut s = RadialSpawner::new(0, 0);
    s.enable();
    let mut g = GameState::new(16);
    g.write_cell(Cell::Seed, 3, 3, false);
    g.write_cell(Cell::Seed, 8, 0, false);
    s.spawn(&mut g);
    assert_eq!(*g.read_cell(3, 3), Cell::Sand);
    assert_eq!(*g.read_cell(8, 0), Cell::Seed);
}

#[test]
fn spawning_air_erases() {
    let mut s = RadialSpawner::new(0, 0);
    s.enable();
    s.set_cell(Cell::Air);
    let mut g = GameState::new(16);
    for x in 0..16 {
        for y in 0..16 {
            g.write_cell(Cell::Sand, x, y, false);
        }
    }
    s.spawn(&mut g);
    for x in 0..16 {
        for y in 0..16 {
            let want = if in_brush(x, y) { Cell::Air } else { Cell::Sand };
            assert_eq!(*g.read_cell(x, y), want);
        }
    }
}

#[test]
fn keys_select_their_materials() {
    assert_eq!(material_for(Key::Q), Some(Cell::Wood { fuel: WOOD_FUEL }));
    assert_eq!(material_for(Key::W), Some(Cell::Fire { heat: FIRE_HEAT }));
    assert_eq!(material_for(Key::W), Some(Cell::Fire { heat: 30 }));
    assert_eq!(material_for(Key::E), Some(Cell::Seed));
    assert_eq!(material_for(Key::R), Some(Cell::Water { dx: 0 }));
    assert_eq!(material_for(Key::T), Some(Cell::Acid { t: 0 }));
    assert_eq!(material_for(Key::Y), Some(Cell::Sand));
    for key in [Key::U, Key::I, Key::O, Key::P, Key::Other] {
        assert_eq!(material_for(key), None);
    }
}

#[test]
fn the_pointer_moves_the_brush_and_the_button_switches_it() {
    let mut s = RadialSpawner::new(0, 0);
    update_spawner(InputEvent::MouseMotion { x: 16, y: 17 }, &mut s);
    assert_eq!(stamped(&mut s, 32), vec![]);
    update_spawner(InputEvent::MouseButtonDown, &mut s);
    let found = stamped(&mut s, 32);
    assert_eq!(found.len(), 73);
    assert!(found.contains(&(Cell::Sand, 16, 17)));
    assert!(!found.contains(&(Cell::Sand, 15, 17)));
    assert!(!found.contains(&(Cell::Sand, 16, 16)));
    update_spawner(InputEvent::MouseMotion { x: 1, y: 2 }, &mut s);
    let found = stamped(&mut s, 32);
    assert!(found.contains(&(Cell::Sand, 1, 2)));
    assert!(!found.contains(&(Cell::Sand, 16, 17)));
    update_spawner(InputEvent::MouseButtonUp, &mut s);
    assert_eq!(stamped(&mut s, 32), vec![]);
}

#[test]
fn a_key_selects_the_material_and_nothing_else() {
    let mut s = RadialSpawner::new(3, 4);
    s.enable();
    let wanted = [
        (Key::Q, Cell::Wood { fuel: WOOD_FUEL }),
        (Key::W, Cell::Fire { heat: 30 }),
        (Key::E, Cell::Seed),
        (Key::R, Cell::Water { dx: 0 }),
        (Key::T, Cell::Acid { t: 0 }),
        (Key::Y, Cell::Sand),
    ];
    for (key, cell) in wanted {
        update_spawner(InputEvent::KeyDown { key }, &mut s);
        let found = stamped(&mut s, 32);
        assert_eq!(found.len(), 73);
        assert!(found.iter().all(|(c, _, _)| *c == cell));
        assert!(found.contains(&(cell, 3, 4)));
    }
}

#[test]
fn other_keys_and_events_change_nothing() {
    let mut s = RadialSpawner::new(3, 4);
    s.enable();
    s.set_cell(Cell::Seed);
    let before = stamped(&mut s, 32);
    for key in [Key::U, Key::I, Key::O, Key::P, Key::Other] {
        update_spawner(InputEvent::KeyDown { key }, &mut s);
        assert_eq!(stamped(&mut s, 32), before);
    }
    update_spawner(InputEvent::Other, &mut s);
    assert_eq!(stamped(&mut s, 32), before);
}

#[test]
fn key_bindings_are_the_thirteen_lines_of_the_help_text() {
    let want = [
        ("Q", "Wood"),
        ("W", "Fire"),
        ("E", "Seed"),
        ("R", "Water"),
        ("T", "Acid"),
        ("Y", "Sand"),
        ("U", "Rocket"),
        ("I", "Stone"),
        ("O", "Bomb"),
        ("P", "Ice"),
        ("LMB", "Spawn"),
        ("DEL", "Clear"),
        ("ESC", "Exit"),
    ];
    let got = get_key_bindings();
    assert_eq!(got.len(), 13);
    for (i, (key, what)) in want.iter().enumerate() {
        assert_eq!(got[i].0, *key);
        assert_eq!(got[i].1, *what);
    }
}

#[test]
fn cells_have_their_colors() {
    assert_eq!(get_cell_color(Cell::Sand), Rgb { r: 180, g: 155, b: 3 });
    assert_eq!(get_cell_color(Cell::Wood { fuel: 1 }), Rgb { r: 116, g: 43, b: 0 });
    assert_eq!(get_cell_color(Cell::Wood { fuel: 0 }), Rgb { r: 116, g: 43, b: 0 });
    assert_eq!(get_cell_color(Cell::Fire { heat: 30 }), Rgb { r: 255, g: 0, b: 0 });
    assert_eq!(get_cell_color(Cell::Seed), Rgb { r: 0, g: 116, b: 11 });
    assert_eq!(get_cell_color(Cell::Vine { growth: 50, grown: false }), Rgb { r: 0, g: 116, b: 11 });
    assert_eq!(get_cell_color(Cell::Vine { growth: 0, grown: true }), Rgb { r: 0, g: 116, b: 11 });
    assert_eq!(get_cell_color(Cell::Water { dx: -1 }), Rgb { r: 16, g: 16, b: 116 });
    assert_eq!(get_cell_color(Cell::Acid { t: 1 }), Rgb { r: 16, g: 116, b: 16 });
    assert_eq!(get_cell_color(Cell::Air), Rgb { r: 0, g: 0, b: 0 });
}

#[test]
fn the_map_is_half_the_screen() {
    assert_eq!(SCREEN_SIZE, 512);
    assert_eq!(MAP_SIZE, 256);
    assert_eq!(MAP_SIZE % 16, 0);
}

#[test]
fn help_lines_stand_in_columns_of_four_below_the_map() {
    assert_eq!(hud_slot(0), (0, 512));
    assert_eq!(hud_slot(1), (0, 528));
    assert_eq!(hud_slot(3), (0, 560));
    assert_eq!(hud_slot(4), (128, 512));
    assert_eq!(hud_slot(7), (128, 560));
    assert_eq!(hud_slot(12), (384, 512));
}
