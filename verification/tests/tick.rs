use sand::cells::{Cell, RadialSpawner, Spawner};
use sand::coins::{CoinSource, SeededCoins, ThreadCoins};
use sand::game::{advance, prepare, run_rules, update, GameState};

struct Script {
    bits: Vec<bool>,
    at: usize,
}

impl Script {
    fn of(bits: &[bool]) -> Script {
        Script { bits: bits.to_vec(), at: 0 }
    }
}

impl CoinSource for Script {
    fn flip(&mut self) -> bool {
        let b = self.bits.get(self.at).copied().unwrap_or(false);
        self.at += 1;
        b
    }
}

/// Coins that all come up the same way.
struct Always(bool);

impl CoinSource for Always {
    fn flip(&mut self) -> bool {
        self.0
    }
}

/// A spawner that writes one cell at one place in every tick.
struct Dropper {
    cell: Cell,
    x: i32,
    y: i32,
    calls: u32,
}

impl Spawner for Dropper {
    fn spawn(&mut self, write_state: &mut GameState) {
        self.calls += 1;
        write_state.write_cell(self.cell, self.x, self.y, true);
    }
}

fn off() -> RadialSpawner {
    RadialSpawner::new(0, 0)
}

fn grid(size: i32, cells: &[(Cell, i32, i32)]) -> GameState {
    let mut g = GameState::new(size);
    for (c, x, y) in cells {
        g.write_cell(*c, *x, *y, true);
    }
    g
}

fn cells_of(g: &GameState) -> Vec<(Cell, i32, i32)> {
    let side = (g.blocks.len() * 16) as i32;
    let mut found = Vec::new();
    for y in 0..side {
        for x in 0..side {
            let c = *g.read_cell(x, y);
            if c != Cell::Air {
                found.push((c, x, y));
            }
        }
    }
    found
}

fn find(g: &GameState, what: fn(&Cell) -> bool) -> Vec<(i32, i32)> {
    cells_of(g).into_iter().filter(|(c, _, _)| what(c)).map(|(_, x, y)| (x, y)).collect()
}

const WOOD: Cell = Cell::Wood { fuel: 5 };

#[test]
fn prepare_copies_clean_blocks_and_empties_dirty_ones() {
    let mut read = grid(32, &[(Cell::Sand, 1, 1), (WOOD, 20, 3), (Cell::Seed, 3, 20), (WOOD, 30, 30)]);
    read.blocks[0][0].dirty = true;
    read.blocks[1][0].dirty = false;
    read.blocks[0][1].dirty = true;
    read.blocks[1][1].dirty = false;
    let mut write = grid(32, &[(Cell::Acid { t: 0 }, 2, 2), (Cell::Acid { t: 0 }, 21, 4), (Cell::Acid { t: 0 }, 31, 31)]);
    prepare(&read, &mut write);
    assert_eq!(cells_of(&write), vec![(WOOD, 20, 3), (WOOD, 30, 30)]);
    for bx in 0..2 {
        for by in 0..2 {
            assert!(!write.blocks[bx][by].dirty);
        }
    }
    assert_eq!(cells_of(&read).len(), 4);
}

#[test]
fn prepare_leaves_alone_what_the_read_grid_does_not_cover() {
    let read = grid(16, &[(Cell::Sand, 1, 1)]);
    let mut write = grid(32, &[(WOOD, 2, 2), (WOOD, 20, 20), (WOOD, 3, 17)]);
    prepare(&read, &mut write);
    assert_eq!(cells_of(&write), vec![(WOOD, 3, 17), (WOOD, 20, 20)]);
    for bx in 0..2 {
        for by in 0..2 {
            assert!(!write.blocks[bx][by].dirty);
        }
    }
}

#[test]
fn run_rules_skips_clean_blocks() {
    let mut read = grid(32, &[(Cell::Sand, 1, 1), (Cell::Sand, 20, 3)]);
    read.blocks[1][0].dirty = false;
    let mut write = GameState::new(32);
    prepare(&read, &mut write);
    run_rules(&read, &mut write, &mut Always(false));
    assert_eq!(cells_of(&write), vec![(Cell::Sand, 1, 2), (Cell::Sand, 20, 3)]);
}

#[test]
fn sand_on_taken_places_stays_and_nothing_else_changes() {
    for size in [16, 32, 64] {
        for coin in [false, true] {
            let cells = [(Cell::Sand, 0, 0), (WOOD, 0, 1), (WOOD, 1, 1)];
            let read = grid(size, &cells);
            let mut write = GameState::new(size);
            update(&read, &mut write, &mut off(), &mut Always(coin));
            assert_eq!(cells_of(&write), cells.to_vec());
            assert!(!write.blocks[0][0].dirty);
        }
    }
}

#[test]
fn lone_sand_falls_one_row_a_tick_whatever_the_coins() {
    for seed in 0..6u64 {
        let mut rng = SeededCoins::new(seed);
        let mut read = grid(32, &[(Cell::Sand, 7, 0)]);
        let mut write = GameState::new(32);
        let mut spawner = off();
        for tick in 1..=31 {
            advance(&mut read, &mut write, &mut spawner, &mut rng);
            assert_eq!(cells_of(&read), vec![(Cell::Sand, 7, tick)]);
        }
        for _ in 0..5 {
            advance(&mut read, &mut write, &mut spawner, &mut rng);
            assert_eq!(cells_of(&read), vec![(Cell::Sand, 7, 31)]);
        }
    }
}

#[test]
fn lone_sand_falls_one_row_a_tick_with_thread_coins() {
    let mut rng = ThreadCoins::new();
    let mut read = grid(48, &[(Cell::Sand, 40, 10)]);
    let mut write = GameState::new(48);
    let mut spawner = off();
    for tick in 1..=37 {
        advance(&mut read, &mut write, &mut spawner, &mut rng);
        assert_eq!(cells_of(&read), vec![(Cell::Sand, 40, 10 + tick)]);
    }
    advance(&mut read, &mut write, &mut spawner, &mut rng);
    assert_eq!(cells_of(&read), vec![(Cell::Sand, 40, 47)]);
}

#[test]
fn lone_sand_stops_on_an_obstruction() {
    for coin in [false, true] {
        let mut read = grid(32, &[(Cell::Sand, 7, 0), (WOOD, 6, 10), (WOOD, 7, 10), (WOOD, 8, 10)]);
        let mut write = GameState::new(32);
        let mut spawner = off();
        let mut rng = Always(coin);
        for tick in 1..=9 {
            advance(&mut read, &mut write, &mut spawner, &mut rng);
            assert_eq!(find(&read, |c| *c == Cell::Sand), vec![(7, tick)]);
        }
        for _ in 0..4 {
            advance(&mut read, &mut write, &mut spawner, &mut rng);
            assert_eq!(find(&read, |c| *c == Cell::Sand), vec![(7, 9)]);
        }
        assert_eq!(find(&read, |c| matches!(c, Cell::Wood { .. })).len(), 3);
    }
}

#[test]
fn sand_in_the_bottom_row_stays_through_many_ticks() {
    for seed in [3u64, 4, 5] {
        let mut rng = SeededCoins::new(seed);
        let row = [
            (WOOD, 4, 31),
            (Cell::Sand, 5, 31),
            (WOOD, 6, 31),
            (WOOD, 4, 30),
            (WOOD, 5, 30),
            (WOOD, 6, 30),
        ];
        let mut read = grid(32, &row);
        let mut write = GameState::new(32);
        let mut spawner = off();
        for _ in 0..20 {
            advance(&mut read, &mut write, &mut spawner, &mut rng);
            assert_eq!(*read.read_cell(5, 31), Cell::Sand);
            assert_eq!(cells_of(&read).len(), 6);
        }
        assert!(!read.blocks[0][1].dirty);
    }
}

#[test]
fn enclosed_fire_of_heat_one_cools_and_then_is_gone() {
    for seed in 0..8u64 {
        let mut rng = SeededCoins::new(seed);
        let mut around = Vec::new();
        for dx in -1..=1 {
            for dy in -1..=1 {
                if (dx, dy) != (0, 0) {
                    around.push((Cell::Sand, 8 + dx, 31 + dy - 1));
                }
            }
        }
        around.retain(|(_, _, y)| *y <= 31);
        let mut cells = around.clone();
        cells.push((Cell::Fire { heat: 1 }, 8, 30));
        for x in 7..=9 {
            cells.push((Cell::Sand, x, 31));
        }
        cells.sort_by_key(|(_, x, y)| (*y, *x));
        cells.dedup();
        let mut read = grid(32, &cells);
        let mut write = GameState::new(32);
        let mut spawner = off();
        advance(&mut read, &mut write, &mut spawner, &mut rng);
        assert_eq!(*read.read_cell(8, 30), Cell::Fire { heat: 0 });
        assert!(read.blocks[0][1].dirty);
        advance(&mut read, &mut write, &mut spawner, &mut rng);
        assert_eq!(*read.read_cell(8, 30), Cell::Air);
    }
}

#[test]
fn still_water_on_the_floor_keeps_the_way_it_first_takes() {
    // The water reads six coins in a tick: four for acid, two for its drift.
    let mut rng = Script::of(&[false, false, false, false, false, true]);
    let mut read = grid(32, &[(Cell::Water { dx: 0 }, 0, 31)]);
    let mut write = GameState::new(32);
    let mut spawner = off();
    advance(&mut read, &mut write, &mut spawner, &mut rng);
    assert_eq!(cells_of(&read), vec![(Cell::Water { dx: 1 }, 1, 31)]);
    for tick in 2..=31 {
        advance(&mut read, &mut write, &mut spawner, &mut rng);
        assert_eq!(cells_of(&read), vec![(Cell::Water { dx: 1 }, tick, 31)]);
    }
    advance(&mut read, &mut write, &mut spawner, &mut rng);
    assert_eq!(cells_of(&read), vec![(Cell::Water { dx: 0 }, 31, 31)]);
}

#[test]
fn drifting_water_is_not_turned_by_later_coins() {
    for seed in 0..5u64 {
        let mut rng = SeededCoins::new(seed);
        let mut read = grid(32, &[(Cell::Water { dx: -1 }, 20, 31)]);
        let mut write = GameState::new(32);
        let mut spawner = off();
        for tick in 1..=20 {
            advance(&mut read, &mut write, &mut spawner, &mut rng);
            assert_eq!(cells_of(&read), vec![(Cell::Water { dx: -1 }, 20 - tick, 31)]);
        }
    }
}

#[test]
fn still_water_moves_at_most_one_place_a_tick_and_then_keeps_going() {
    for seed in 0..10u64 {
        let mut rng = SeededCoins::new(seed);
        let mut read = grid(64, &[(Cell::Water { dx: 0 }, 30, 63)]);
        let mut write = GameState::new(64);
        let mut spawner = off();
        let mut way = 0;
        let mut x = 30;
        for _ in 0..20 {
            advance(&mut read, &mut write, &mut spawner, &mut rng);
            let found = cells_of(&read);
            assert_eq!(found.len(), 1);
            let (c, nx, ny) = found[0];
            assert_eq!(ny, 63);
            let dx = match c {
                Cell::Water { dx } => dx,
                _ => panic!("not water"),
            };
            assert_eq!(nx - x, dx);
            if way != 0 {
                assert_eq!(dx, way);
            } else {
                assert!((-1..=1).contains(&dx));
                way = dx;
            }
            x = nx;
        }
    }
}

fn promise(c: &Cell) -> i64 {
    match c {
        Cell::Seed => 51,
        Cell::Vine { growth, grown } => {
            if *grown || *growth <= 0 {
                1
            } else {
                1 + *growth as i64
            }
        }
        _ => 0,
    }
}

#[test]
fn a_vine_never_comes_to_more_than_fifty_one_segments() {
    for seed in 0..4u64 {
        let mut rng = SeededCoins::new(seed);
        let mut read = grid(128, &[(Cell::Vine { growth: 50, grown: false }, 64, 120)]);
        let mut write = GameState::new(128);
        let mut spawner = off();
        let mut budget = 51;
        let mut cap = 50;
        let mut most = 1;
        for _ in 0..400 {
            advance(&mut read, &mut write, &mut spawner, &mut rng);
            let found = cells_of(&read);
            let mut total = 0;
            let mut top = i32::MIN;
            for (c, _, y) in found.iter() {
                match c {
                    Cell::Vine { growth, .. } => {
                        assert!(*growth >= 0);
                        top = top.max(*growth);
                        assert!(*y <= 120);
                    }
                    other => panic!("a vine made {:?}", other),
                }
                total += promise(c);
            }
            assert!(found.len() <= 51);
            assert!(total <= budget);
            assert!(top <= cap);
            budget = total;
            cap = top;
            most = most.max(found.len());
        }
        assert!(most > 1);
        assert!(cells_of(&read).iter().all(|(c, _, _)| matches!(c, Cell::Vine { grown: true, .. })));
    }
}

#[test]
fn a_vine_in_a_tight_place_uses_its_growth_up() {
    let mut rng = Always(false);
    let mut cells = vec![(Cell::Vine { growth: 50, grown: false }, 5, 5)];
    for dx in -1..=1 {
        for dy in -1..=1 {
            if (dx, dy) != (0, 0) {
                cells.push((WOOD, 5 + dx, 5 + dy));
            }
        }
    }
    let mut read = grid(16, &cells);
    let mut write = GameState::new(16);
    let mut spawner = off();
    for tick in 1..=50 {
        advance(&mut read, &mut write, &mut spawner, &mut rng);
        assert_eq!(*read.read_cell(5, 5), Cell::Vine { growth: 50 - tick, grown: false });
    }
    advance(&mut read, &mut write, &mut spawner, &mut rng);
    assert_eq!(*read.read_cell(5, 5), Cell::Vine { growth: 0, grown: true });
    assert_eq!(find(&read, |c| matches!(c, Cell::Vine { .. })).len(), 1);
}

#[test]
fn every_place_holds_one_cell_after_every_tick() {
    let mut rng = SeededCoins::new(11);
    let mut read = GameState::new(64);
    let kinds = [
        Cell::Sand,
        WOOD,
        Cell::Fire { heat: 30 },
        Cell::Seed,
        Cell::Vine { growth: 50, grown: false },
        Cell::Water { dx: 0 },
        Cell::Acid { t: 0 },
    ];
    for i in 0..400 {
        let x = (i * 37) % 64;
        let y = (i * 11) % 40;
        read.write_cell(kinds[(i % 7) as usize], x, y, true);
    }
    let mut write = GameState::new(64);
    let mut spawner = RadialSpawner::new(28, 0);
    spawner.enable();
    for tick in 0..60 {
        if tick == 30 {
            spawner.disable();
        }
        advance(&mut read, &mut write, &mut spawner, &mut rng);
        assert_eq!(read.size, 64);
        assert_eq!(read.blocks.len(), 4);
        let mut air = 0;
        let mut matter = 0;
        for bx in 0..4 {
            assert_eq!(read.blocks[bx].len(), 4);
            for by in 0..4 {
                assert_eq!(read.blocks[bx][by].cells.len(), 256);
            }
        }
        for x in 0..64 {
            for y in 0..64 {
                if read.is_empty(x, y) {
                    air += 1;
                    assert_eq!(*read.read_cell(x, y), Cell::Air);
                } else {
                    matter += 1;
                    assert!(*read.read_cell(x, y) != Cell::Air);
                }
            }
        }
        assert_eq!(air + matter, 64 * 64);
        assert_eq!(matter, cells_of(&read).len());
    }
}

#[test]
fn update_leaves_the_read_grid_as_it_was() {
    let cells = [(Cell::Sand, 3, 3), (Cell::Water { dx: 0 }, 9, 9), (WOOD, 20, 20)];
    let read = grid(32, &cells);
    let mut write = GameState::new(32);
    update(&read, &mut write, &mut off(), &mut SeededCoins::new(1));
    let mut before = cells.to_vec();
    before.sort_by_key(|(_, x, y)| (*y, *x));
    assert_eq!(cells_of(&read), before);
    for bx in 0..2 {
        for by in 0..2 {
            assert!(read.blocks[bx][by].dirty);
        }
    }
}

#[test]
fn advance_swaps_the_grids() {
    let mut read = grid(32, &[(Cell::Sand, 3, 3)]);
    let mut write = grid(32, &[(WOOD, 1, 1)]);
    advance(&mut read, &mut write, &mut off(), &mut Always(true));
    assert_eq!(cells_of(&read), vec![(Cell::Sand, 3, 4)]);
    assert_eq!(cells_of(&write), vec![(Cell::Sand, 3, 3)]);
}

#[test]
fn what_is_spawned_is_there_before_the_cells_are_evaluated() {
    // The sand finds the place below it taken by what was spawned, and slides.
    let read = grid(32, &[(Cell::Sand, 5, 5)]);
    let mut write = GameState::new(32);
    let mut dropper = Dropper { cell: WOOD, x: 5, y: 6, calls: 0 };
    update(&read, &mut write, &mut dropper, &mut Always(true));
    assert_eq!(dropper.calls, 1);
    assert_eq!(cells_of(&write), vec![(WOOD, 5, 6), (Cell::Sand, 6, 6)]);
}

#[test]
fn a_cell_whose_place_was_spawned_over_is_gone() {
    let read = grid(32, &[(Cell::Sand, 5, 5)]);
    let mut write = GameState::new(32);
    let mut dropper = Dropper { cell: Cell::Seed, x: 5, y: 5, calls: 0 };
    update(&read, &mut write, &mut dropper, &mut Always(false));
    assert_eq!(cells_of(&write), vec![(Cell::Seed, 5, 5)]);
    assert!(write.blocks[0][0].dirty);
}

#[test]
fn what_is_spawned_into_a_clean_block_stays_and_marks_it() {
    let mut read = grid(32, &[(WOOD, 20, 20)]);
    for bx in 0..2 {
        for by in 0..2 {
            read.blocks[bx][by].dirty = false;
        }
    }
    let mut write = GameState::new(32);
    let mut dropper = Dropper { cell: Cell::Sand, x: 21, y: 21, calls: 0 };
    update(&read, &mut write, &mut dropper, &mut Always(false));
    assert_eq!(cells_of(&write), vec![(WOOD, 20, 20), (Cell::Sand, 21, 21)]);
    assert!(write.blocks[1][1].dirty);
    assert!(!write.blocks[0][0].dirty);
}

#[test]
fn a_clean_grid_is_copied() {
    let cells = [(Cell::Sand, 3, 3), (Cell::Water { dx: 0 }, 9, 9), (Cell::Fire { heat: 3 }, 20, 20)];
    let mut read = grid(32, &cells);
    for bx in 0..2 {
        for by in 0..2 {
            read.blocks[bx][by].dirty = false;
        }
    }
    let mut write = GameState::new(32);
    let mut rng = Script::of(&[true; 4]);
    update(&read, &mut write, &mut off(), &mut rng);
    assert_eq!(rng.at, 0);
    let mut same = cells.to_vec();
    same.sort_by_key(|(_, x, y)| (*y, *x));
    assert_eq!(cells_of(&write), same);
}

#[test]
fn blocks_are_evaluated_column_by_column_and_cells_row_by_row() {
    // Two grains that want the same place: the one evaluated first gets it.
    // Within a block the upper row comes first.
    let read = grid(32, &[(Cell::Sand, 5, 5), (WOOD, 5, 6), (Cell::Sand, 7, 5), (WOOD, 7, 6)]);
    let mut write = GameState::new(32);
    // First grain: acid probe four coins, then right. Second grain: four, then left.
    let mut rng = Script::of(&[false, false, false, false, true, false, false, false, false, false]);
    update(&read, &mut write, &mut off(), &mut rng);
    assert_eq!(
        cells_of(&write),
        vec![(Cell::Sand, 7, 5), (WOOD, 5, 6), (Cell::Sand, 6, 6), (WOOD, 7, 6)]
    );
}

#[test]
fn a_grid_without_blocks_ticks() {
    let mut read = GameState::new(0);
    let mut write = GameState::new(0);
    advance(&mut read, &mut write, &mut off(), &mut Always(true));
    assert_eq!(read.blocks.len(), 0);
    assert_eq!(write.blocks.len(), 0);
}
