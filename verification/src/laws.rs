//! What the rules add up to: sand that rests and sand that falls, fire that
//! dies, vines that run out of growth.

use vstd::prelude::*;
use crate::cells::Cell;
use crate::coins::Draws;
use crate::frame::{lemma_mark, lemma_write};
use crate::model::Grid;
use crate::frame::lemma_seam;
use crate::passes::{
    alone, lemma_pass_alone, lemma_pass_sheltered, lemma_prepared_wf, lemma_rules_pass_wf,
    sheltered,
};
use crate::rules::{fall_target, free, seam_marked, settled, step};
use crate::tick::{Coins, after_ticks, prepared, rules_pass, tick};

verus! {

/// Whether none of the nine places around `(x, y)`, itself included, held
/// acid when the tick began.
pub open spec fn no_acid_near(read: Grid, x: int, y: int) -> bool {
    forall|qx: int, qy: int|
        x - 1 <= qx <= x + 1 && y - 1 <= qy <= y + 1 ==> !(#[trigger] read.read(qx, qy) is Acid)
}

/// Whether none of the nine places around `(x, y)`, itself included, held
/// `Air` when the tick began. A place off the grid counts as `Air`.
pub open spec fn enclosed(read: Grid, x: int, y: int) -> bool {
    forall|qx: int, qy: int|
        x - 1 <= qx <= x + 1 && y - 1 <= qy <= y + 1 ==> !(#[trigger] read.read(qx, qy) is Air)
}

/// Whether a cell at `(x, y)` has nowhere to fall: none of the three places
/// below it is free.
pub open spec fn grounded(read: Grid, write: Grid, x: int, y: int) -> bool {
    !free(read, write, x - 1, y + 1) && !free(read, write, x, y + 1) && !free(
        read,
        write,
        x + 1,
        y + 1,
    )
}

/// Gravity puts a cell in one place only, and never in a place that
/// another cell has taken in this tick: the one place that it changes is
/// the place that the cell falls to, which was empty in both grids, or,
/// where the cell cannot fall, the cell's own.
pub proof fn lemma_first_claim_wins(
    cell: Cell,
    x: int,
    y: int,
    sideways: int,
    read: Grid,
    write: Grid,
    qx: int,
    qy: int,
)
    requires
        write.wf(),
        settled(cell, x, y, sideways, read, write).read(qx, qy) != write.read(qx, qy),
    ensures
        settled(cell, x, y, sideways, read, write).read(qx, qy) == cell,
        match fall_target(x, y, sideways, read, write) {
            Some(t) => t == (qx, qy) && free(read, write, qx, qy),
            None => (qx, qy) == (x, y),
        },
{
    match fall_target(x, y, sideways, read, write) {
        Some(t) => {
            lemma_write(write, cell, t.0, t.1, true);
            lemma_mark(write.write(cell, t.0, t.1, true), t.0, t.1 - 1);
        },
        None => {
            lemma_write(write, cell, x, y, false);
        },
    }
}

/// Sand that has nowhere to fall, and no acid next to it, stays where it
/// is whatever the coins are: it is written back, nothing else is written,
/// and nothing is marked.
pub proof fn lemma_sand_rests(x: int, y: int, d: Draws, read: Grid, write: Grid)
    requires
        write.is_empty(x, y),
        grounded(read, write, x, y),
        no_acid_near(read, x, y),
    ensures
        step(Cell::Sand, x, y, d, read, write) == write.write(Cell::Sand, x, y, false),
{
    reveal(step);
}

/// Sand over a free place, with no acid next to it, falls straight down
/// whatever the coins are: straight down is tried before either side.
pub proof fn lemma_sand_falls(x: int, y: int, d: Draws, read: Grid, write: Grid)
    requires
        write.is_empty(x, y),
        free(read, write, x, y + 1),
        no_acid_near(read, x, y),
    ensures
        step(Cell::Sand, x, y, d, read, write) == write.write(Cell::Sand, x, y + 1, true).mark(x, y),
{
    reveal(step);
}

/// Sand in the bottom row stays there through a tick, whatever the coins
/// are, whatever the cells around it do and whatever is spawned elsewhere,
/// as long as no acid is next to it and no water right above it. `spawned`
/// is the written grid as the spawner left it: at `(x, y)` it is as the
/// tick prepared it.
pub proof fn lemma_floor_sand_stays(coins: Coins, read: Grid, spawned: Grid, x: int, y: int)
    requires
        read.wf(),
        spawned.wf(),
        spawned.size == read.size,
        read.read(x, y) == Cell::Sand,
        y == read.side() - 1,
        no_acid_near(read, x, y),
        !(read.read(x, y - 1) is Water),
        spawned.read(x, y) == if read.is_dirty(x / 16, y / 16) {
            Cell::Air
        } else {
            Cell::Sand
        },
    ensures
        rules_pass(coins, read, spawned).read(x, y) == Cell::Sand,
{
    let w = lemma_pass_sheltered(coins, read, spawned, x, y);
    if read.is_dirty(x / 16, y / 16) {
        lemma_sand_rests(x, y, coins[(x, y)], read, w);
        lemma_write(w, Cell::Sand, x, y, false);
    }
}

/// A cell that is alone on the grid, and is not acid, has no acid next to
/// it.
proof fn lemma_alone_has_no_acid(read: Grid, x: int, y: int)
    requires
        alone(read, x, y),
        !(read.read(x, y) is Acid),
    ensures
        no_acid_near(read, x, y),
{
    assert forall|qx: int, qy: int|
        x - 1 <= qx <= x + 1 && y - 1 <= qy <= y + 1 implies !(#[trigger] read.read(qx, qy)
        is Acid) by {
        if (qx, qy) != (x, y) {
            assert(read.read(qx, qy) is Air);
        }
    }
}

/// The tick prepares a grid of `Air` from a read grid whose one cell lies
/// in a dirty block.
proof fn lemma_prepared_blank(read: Grid, write: Grid, x: int, y: int)
    requires
        read.wf(),
        write.wf(),
        write.size == read.size,
        alone(read, x, y),
        read.is_dirty(x / 16, y / 16),
    ensures
        forall|qx: int, qy: int| #[trigger] prepared(read, write).read(qx, qy) is Air,
        forall|bx: int, by: int| !#[trigger] prepared(read, write).is_dirty(bx, by),
        prepared(read, write).wf(),
        prepared(read, write).size == read.size,
{
    assert forall|qx: int, qy: int| #[trigger] prepared(read, write).read(qx, qy) is Air by {
        if read.in_bounds(qx, qy) && (qx, qy) != (x, y) {
            assert(read.read(qx, qy) is Air);
        }
    }
}

/// A lone grain of sand with a place below it moves down one row in a
/// tick, whatever the coins are: afterwards it is the only cell again, one
/// row lower, and its block is dirty, so that the next tick moves it on.
pub proof fn lemma_lone_sand_falls(coins: Coins, read: Grid, write: Grid, x: int, y: int)
    requires
        read.wf(),
        write.wf(),
        write.size == read.size,
        alone(read, x, y),
        read.read(x, y) == Cell::Sand,
        read.is_dirty(x / 16, y / 16),
        read.in_bounds(x, y + 1),
    ensures
        tick(coins, read, write).wf(),
        tick(coins, read, write).size == read.size,
        tick(coins, read, write).read(x, y + 1) == Cell::Sand,
        alone(tick(coins, read, write), x, y + 1),
        tick(coins, read, write).is_dirty(x / 16, (y + 1) / 16),
{
    let start = prepared(read, write);
    lemma_prepared_blank(read, write, x, y);
    lemma_pass_alone(coins, read, start, x, y);
    assert(read.read(x, y + 1) is Air);
    lemma_alone_has_no_acid(read, x, y);
    lemma_sand_falls(x, y, coins[(x, y)], read, start);
    let placed = start.write(Cell::Sand, x, y + 1, true);
    lemma_write(start, Cell::Sand, x, y + 1, true);
    lemma_mark(placed, x, y);
    let after = tick(coins, read, write);
    assert forall|qx: int, qy: int| (qx, qy) != (x, y + 1) implies #[trigger] after.read(qx, qy)
        is Air by {
        assert(placed.read(qx, qy) == start.read(qx, qy));
    }
}

/// A lone grain of sand in the bottom row is where it was after a tick,
/// and alone, whatever the coins are and whether its block is dirty or
/// not.
pub proof fn lemma_lone_sand_lands(coins: Coins, read: Grid, write: Grid, x: int, y: int)
    requires
        read.wf(),
        write.wf(),
        write.size == read.size,
        alone(read, x, y),
        read.read(x, y) == Cell::Sand,
        y == read.side() - 1,
    ensures
        tick(coins, read, write).wf(),
        tick(coins, read, write).size == read.size,
        tick(coins, read, write).read(x, y) == Cell::Sand,
        alone(tick(coins, read, write), x, y),
{
    let start = prepared(read, write);
    lemma_prepared_wf(read, write);
    lemma_pass_alone(coins, read, start, x, y);
    let after = tick(coins, read, write);
    assert forall|qx: int, qy: int| (qx, qy) != (x, y) implies #[trigger] start.read(qx, qy)
        is Air by {
        if read.in_bounds(qx, qy) {
            assert(read.read(qx, qy) is Air);
        }
    }
    if read.is_dirty(x / 16, y / 16) {
        lemma_alone_has_no_acid(read, x, y);
        lemma_sand_rests(x, y, coins[(x, y)], read, start);
        lemma_write(start, Cell::Sand, x, y, false);
        assert forall|qx: int, qy: int| (qx, qy) != (x, y) implies #[trigger] after.read(qx, qy)
            is Air by {
            assert(after.read(qx, qy) == start.read(qx, qy));
        }
    } else {
        assert(start.read(x, y) == Cell::Sand);
    }
}

/// A lone grain of sand with `coins.len()` places below it is that many
/// rows lower after that many ticks in which nothing is spawned, whatever
/// the coins are: it moves down exactly one row in every tick.
pub proof fn lemma_lone_sand_falls_row_by_row(coins: Seq<Coins>, read: Grid, write: Grid, x: int, y: int)
    requires
        read.wf(),
        write.wf(),
        write.size == read.size,
        alone(read, x, y),
        read.read(x, y) == Cell::Sand,
        read.is_dirty(x / 16, y / 16),
        read.in_bounds(x, y + coins.len()),
    ensures
        after_ticks(coins, read, write).0.wf(),
        after_ticks(coins, read, write).1.wf(),
        after_ticks(coins, read, write).0.size == read.size,
        after_ticks(coins, read, write).1.size == read.size,
        after_ticks(coins, read, write).0.read(x, y + coins.len()) == Cell::Sand,
        alone(after_ticks(coins, read, write).0, x, y + coins.len()),
        after_ticks(coins, read, write).0.is_dirty(x / 16, (y + coins.len()) / 16),
    decreases coins.len(),
{
    if coins.len() > 0 {
        lemma_lone_sand_falls_row_by_row(coins.drop_last(), read, write, x, y);
        let before = after_ticks(coins.drop_last(), read, write);
        lemma_lone_sand_falls(coins.last(), before.0, before.1, x, y + coins.len() - 1);
    }
}

/// A lone grain of sand in the bottom row is where it was, and alone,
/// after any number of ticks in which nothing is spawned, whatever the
/// coins are.
pub proof fn lemma_lone_sand_stays_landed(coins: Seq<Coins>, read: Grid, write: Grid, x: int, y: int)
    requires
        read.wf(),
        write.wf(),
        write.size == read.size,
        alone(read, x, y),
        read.read(x, y) == Cell::Sand,
        y == read.side() - 1,
    ensures
        after_ticks(coins, read, write).0.wf(),
        after_ticks(coins, read, write).1.wf(),
        after_ticks(coins, read, write).0.size == read.size,
        after_ticks(coins, read, write).1.size == read.size,
        after_ticks(coins, read, write).0.read(x, y) == Cell::Sand,
        alone(after_ticks(coins, read, write).0, x, y),
    decreases coins.len(),
{
    if coins.len() > 0 {
        lemma_lone_sand_stays_landed(coins.drop_last(), read, write, x, y);
        let before = after_ticks(coins.drop_last(), read, write);
        lemma_lone_sand_lands(coins.last(), before.0, before.1, x, y);
    }
}

/// Water that drifts, cannot fall and has a free place on the side that it
/// drifts to flows there and keeps its drift, whatever the coins are: once
/// it has a way, no coin turns it.
pub proof fn lemma_drifting_water_keeps_its_way(
    dx: i32,
    x: int,
    y: int,
    d: Draws,
    read: Grid,
    write: Grid,
)
    requires
        dx != 0,
        write.is_empty(x, y),
        no_acid_near(read, x, y),
        fall_target(x, y, dx as int, read, write) is None,
        !(read.read(x, y + 1) is Sand),
        free(read, write, x + dx, y),
    ensures
        step(Cell::Water { dx }, x, y, d, read, write) == write.mark(x - dx, y).write(
            Cell::Air,
            x,
            y,
            false,
        ).write(Cell::Water { dx }, x + dx, y, true),
{
    reveal(step);
}

/// Fire that has heat, and no `Air` around it, stays where it is and cools
/// by one, whatever the coins are.
pub proof fn lemma_enclosed_fire_cools(heat: i32, x: int, y: int, d: Draws, read: Grid, write: Grid)
    requires
        heat > 0,
        write.is_empty(x, y),
        enclosed(read, x, y),
    ensures
        step(Cell::Fire { heat }, x, y, d, read, write) == seam_marked(
            x,
            y,
            write.write(Cell::Fire { heat: (heat - 1) as i32 }, x, y, true),
        ),
{
    reveal(step);
}

/// Fire without heat writes nothing, wherever it is: its place is left
/// empty.
pub proof fn lemma_cold_fire_goes_out(heat: i32, x: int, y: int, d: Draws, read: Grid, write: Grid)
    requires
        heat <= 0,
    ensures
        step(Cell::Fire { heat }, x, y, d, read, write) == write,
{
    reveal(step);
}

/// Fire of heat one with no `Air` around it is fire without heat after a
/// tick, in a block that is marked, whatever the coins are and whatever
/// the cells around it do. `spawned` is the written grid as the spawner
/// left it: at `(x, y)` it is empty, as the tick prepared it.
pub proof fn lemma_enclosed_fire_burns_down(coins: Coins, read: Grid, spawned: Grid, x: int, y: int)
    requires
        read.wf(),
        spawned.wf(),
        spawned.size == read.size,
        read.read(x, y) == (Cell::Fire { heat: 1 }),
        read.is_dirty(x / 16, y / 16),
        enclosed(read, x, y),
        spawned.read(x, y) is Air,
    ensures
        rules_pass(coins, read, spawned).read(x, y) == (Cell::Fire { heat: 0 }),
        rules_pass(coins, read, spawned).is_dirty(x / 16, y / 16),
{
    let w = lemma_pass_sheltered(coins, read, spawned, x, y);
    lemma_enclosed_fire_cools(1, x, y, coins[(x, y)], read, w);
    let stayed = w.write(Cell::Fire { heat: 0 }, x, y, true);
    lemma_write(w, Cell::Fire { heat: 0 }, x, y, true);
    lemma_seam(x, y, stayed);
}

/// Fire without heat is gone after a tick in which its block is
/// evaluated: its place holds `Air`, whatever the coins are and whatever
/// the cells around it do. `spawned` is the written grid as the spawner
/// left it: at `(x, y)` it is empty, as the tick prepared it.
pub proof fn lemma_cold_fire_is_gone(coins: Coins, read: Grid, spawned: Grid, x: int, y: int, heat: i32)
    requires
        read.wf(),
        spawned.wf(),
        spawned.size == read.size,
        read.read(x, y) == (Cell::Fire { heat }),
        heat <= 0,
        read.is_dirty(x / 16, y / 16),
        spawned.read(x, y) is Air,
    ensures
        rules_pass(coins, read, spawned).read(x, y) is Air,
{
    let w = lemma_pass_sheltered(coins, read, spawned, x, y);
    lemma_cold_fire_goes_out(heat, x, y, coins[(x, y)], read, w);
}

/// Fire of heat one with no `Air` around it, in a block that is evaluated,
/// is gone after two ticks in which nothing is spawned, whatever the coins
/// are and whatever the cells around it do: the first tick leaves it
/// without heat, and the second takes it away.
pub proof fn lemma_enclosed_fire_dies(
    first: Coins,
    second: Coins,
    read: Grid,
    write: Grid,
    x: int,
    y: int,
)
    requires
        read.wf(),
        write.wf(),
        write.size == read.size,
        read.read(x, y) == (Cell::Fire { heat: 1 }),
        read.is_dirty(x / 16, y / 16),
        enclosed(read, x, y),
    ensures
        tick(first, read, write).read(x, y) == (Cell::Fire { heat: 0 }),
        tick(second, tick(first, read, write), read).read(x, y) is Air,
{
    let start = prepared(read, write);
    lemma_prepared_wf(read, write);
    lemma_enclosed_fire_burns_down(first, read, start, x, y);
    let cooled = tick(first, read, write);
    lemma_rules_pass_wf(first, read, start);
    let again = prepared(cooled, read);
    lemma_prepared_wf(cooled, read);
    lemma_cold_fire_is_gone(second, cooled, again, x, y, 0);
}

} // verus!
