//! What each material does in one evaluation, as a function from the cell,
//! its place, the coins, the grid that is read and the grid that is written
//! to the grid that is written afterwards.

use vstd::prelude::*;
use crate::cells::Cell;
use crate::coins::{Draws, Probe, nudged};
use crate::model::Grid;

verus! {

/// The heat of fire that has just been lit.
pub const FIRE_HEAT: i32 = 30;

/// The growth that a vine has when it takes root.
pub const VINE_GROWTH: i32 = 50;

/// The fuel of a fresh piece of wood.
pub const WOOD_FUEL: i32 = 30;

/// The step to the side that goes with a coin: right if set, else left.
pub open spec fn lateral(right: bool) -> int {
    if right {
        1
    } else {
        -1
    }
}

/// Whether a cell may move to `(x, y)`: the place lies on both grids, was
/// empty when the tick began and has not been taken since.
pub open spec fn free(read: Grid, write: Grid, x: int, y: int) -> bool {
    read.is_empty(x, y) && write.is_empty(x, y)
}

/// Where a cell at `(x, y)` falls to: straight down if that is free, else
/// down and `sideways` over if that is free, else nowhere.
pub open spec fn fall_target(x: int, y: int, sideways: int, read: Grid, write: Grid) -> Option<
    (int, int),
> {
    if free(read, write, x, y + 1) {
        Some((x, y + 1))
    } else if free(read, write, x + sideways, y + 1) {
        Some((x + sideways, y + 1))
    } else {
        None
    }
}

/// Gravity on `cell` at `(x, y)`. A cell that falls is written where it
/// falls to, and the block of the place right above that one is marked. A
/// cell that cannot fall is written back where it is, without marking.
pub open spec fn settled(cell: Cell, x: int, y: int, sideways: int, read: Grid, write: Grid) -> Grid {
    match fall_target(x, y, sideways, read, write) {
        Some(t) => write.write(cell, t.0, t.1, true).mark(t.0, t.1 - 1),
        None => write.write(cell, x, y, false),
    }
}

/// Whether the neighbor of `(x, y)` that `probe` picks held acid when the
/// tick began.
pub open spec fn senses_acid(probe: Probe, x: int, y: int, read: Grid) -> bool {
    read.read(probe.target(x, y).0, probe.target(x, y).1) is Acid
}

/// The acid that `probe` picks around `(x, y)` is used up: its place is
/// written as `Air`, without marking.
pub open spec fn dissolved(probe: Probe, x: int, y: int, write: Grid) -> Grid {
    write.write(Cell::Air, probe.target(x, y).0, probe.target(x, y).1, false)
}

/// Whether the neighbor of `(x, y)` that `probe` picks held fire when the
/// tick began.
pub open spec fn senses_fire(probe: Probe, x: int, y: int, read: Grid) -> bool {
    read.read(probe.target(x, y).0, probe.target(x, y).1) is Fire
}

/// The cell at `(x, y)` catches fire.
pub open spec fn ignited(x: int, y: int, write: Grid) -> Grid {
    write.write(Cell::Fire { heat: FIRE_HEAT }, x, y, true)
}

/// The blocks next to `(x, y)` across an edge of its own block are marked:
/// left or up where the cell is first in its row or column of the block,
/// right or down where it is last.
pub open spec fn seam_marked(x: int, y: int, write: Grid) -> Grid {
    let a = if x % 16 == 0 { write.mark(x - 1, y) } else { write };
    let b = if y % 16 == 0 { a.mark(x, y - 1) } else { a };
    let c = if x % 16 == 15 { b.mark(x + 1, y) } else { b };
    if y % 16 == 15 { c.mark(x, y + 1) } else { c }
}

/// Sand: acid next to it eats it, and is used up; else it falls.
pub open spec fn sand_step(x: int, y: int, d: Draws, read: Grid, write: Grid) -> Grid {
    if senses_acid(d.acid, x, y, read) {
        dissolved(d.acid, x, y, write)
    } else {
        settled(Cell::Sand, x, y, lateral(d.right), read, write)
    }
}

/// Wood: without fuel it is gone; fire next to it lights it; else it stays,
/// and is written back without marking.
pub open spec fn wood_step(fuel: int, x: int, y: int, d: Draws, read: Grid, write: Grid) -> Grid {
    if fuel <= 0 {
        write
    } else if senses_fire(d.fire, x, y, read) {
        ignited(x, y, write)
    } else {
        write.write(Cell::Wood { fuel: fuel as i32 }, x, y, false)
    }
}

/// Fire: without heat it is gone. Else, where the neighbor that it reaches
/// for was `Air`, it moves there, one or two cooler, and leaves its own
/// place empty; where not, it stays, one cooler, and marks across the seams
/// of its block.
pub open spec fn fire_step(heat: int, x: int, y: int, d: Draws, read: Grid, write: Grid) -> Grid {
    let t = d.reach.target(x, y);
    if heat <= 0 {
        write
    } else if read.read(t.0, t.1) is Air {
        write.write(Cell::Fire { heat: (heat - if d.quick { 2int } else { 1int }) as i32 }, t.0, t.1, true)
    } else {
        seam_marked(x, y, write.write(Cell::Fire { heat: (heat - 1) as i32 }, x, y, true))
    }
}

/// Seed: it falls; where it cannot, it takes root on sand and is lost on
/// anything else.
pub open spec fn seed_step(x: int, y: int, d: Draws, read: Grid, write: Grid) -> Grid {
    match fall_target(x, y, lateral(d.right), read, write) {
        Some(_) => settled(Cell::Seed, x, y, lateral(d.right), read, write),
        None => if read.read(x, y + 1) is Sand {
            write.write(Cell::Vine { growth: VINE_GROWTH, grown: false }, x, y, true)
        } else {
            write.write(Cell::Air, x, y, true)
        },
    }
}

/// The place that a vine at `(x, y)` grows into: the neighbor that the
/// probe picks, but never one below the vine's own row.
pub open spec fn vine_target(probe: Probe, x: int, y: int) -> (int, int) {
    let t = probe.target(x, y);
    (t.0, if t.1 > y { y } else { t.1 })
}

/// A vine segment that neither burns nor dissolves. One that is grown, or
/// has no growth left, stays and is grown from then on. One that is still
/// growing either puts a new segment with one growth less into an `Air`
/// neighbor, and is grown, or finds no room and loses one growth.
pub open spec fn vine_grown(growth: int, grown: bool, x: int, y: int, probe: Probe, read: Grid, write: Grid) -> Grid {
    let t = vine_target(probe, x, y);
    if growth <= 0 || grown {
        write.write(Cell::Vine { growth: growth as i32, grown: true }, x, y, !grown)
    } else if read.read(t.0, t.1) is Air {
        write.write(Cell::Vine { growth: (growth - 1) as i32, grown: false }, t.0, t.1, true).write(
            Cell::Vine { growth: growth as i32, grown: true },
            x,
            y,
            true,
        )
    } else {
        write.write(Cell::Vine { growth: (growth - 1) as i32, grown: false }, x, y, true)
    }
}

/// Vine: fire next to it lights it; else acid next to it eats it; else it
/// stays or grows.
pub open spec fn vine_step(growth: int, grown: bool, x: int, y: int, d: Draws, read: Grid, write: Grid) -> Grid {
    if senses_fire(d.fire, x, y, read) {
        ignited(x, y, write)
    } else if senses_acid(d.acid, x, y, read) {
        dissolved(d.acid, x, y, write)
    } else {
        vine_grown(growth, grown, x, y, d.reach, read, write)
    }
}

/// The column that water at `x` with drift `dx` flows to: `dx` over, or,
/// for still water, where two coins move it.
pub open spec fn flow_target(dx: int, x: int, d: Draws) -> int {
    if dx == 0 {
        nudged(x, d.drift_dec, d.drift_inc)
    } else {
        x + dx
    }
}

/// Water that cannot fall. It sinks through sand below it; else it flows
/// to a free place beside it, keeps the step as its drift and marks the
/// block on the other side; else it stays, without drift.
pub open spec fn water_rested(dx: int, x: int, y: int, d: Draws, read: Grid, write: Grid) -> Grid {
    let to = flow_target(dx, x, d);
    if read.read(x, y + 1) is Sand {
        write.write(Cell::Water { dx: 0 }, x, y + 1, true).write(Cell::Sand, x, y, true)
    } else if to != x && free(read, write, to, y) {
        write.mark(x - (to - x), y).write(Cell::Air, x, y, false).write(
            Cell::Water { dx: (to - x) as i32 },
            to,
            y,
            true,
        )
    } else {
        write.write(Cell::Water { dx: 0 }, x, y, true)
    }
}

/// Water: acid next to it eats it. Else it falls, to the side that it
/// drifts to. Where it cannot fall, it sinks, flows or stays.
pub open spec fn water_step(dx: int, x: int, y: int, d: Draws, read: Grid, write: Grid) -> Grid {
    if senses_acid(d.acid, x, y, read) {
        dissolved(d.acid, x, y, write)
    } else if fall_target(x, y, dx, read, write) is Some {
        settled(Cell::Water { dx: dx as i32 }, x, y, dx, read, write)
    } else {
        water_rested(dx, x, y, d, read, write)
    }
}

/// Acid: it falls, and has `t` set from then on. Where it cannot fall, acid
/// with `t` set is used up; either way the block below is marked.
pub open spec fn acid_step(t: int, x: int, y: int, d: Draws, read: Grid, write: Grid) -> Grid {
    match fall_target(x, y, lateral(d.right), read, write) {
        Some(_) => settled(Cell::Acid { t: 1 }, x, y, lateral(d.right), read, write),
        None => write.write(if t > 0 { Cell::Air } else { Cell::Acid { t: 1 } }, x, y, false).mark(
            x,
            y + 1,
        ),
    }
}

/// One evaluation of `cell` at `(x, y)`. A cell whose place in the written
/// grid is taken, or lies off it, does nothing.
#[verifier::opaque]
pub open spec fn step(cell: Cell, x: int, y: int, d: Draws, read: Grid, write: Grid) -> Grid {
    if !write.is_empty(x, y) {
        write
    } else {
        match cell {
            Cell::Air => write,
            Cell::Sand => sand_step(x, y, d, read, write),
            Cell::Wood { fuel } => wood_step(fuel as int, x, y, d, read, write),
            Cell::Fire { heat } => fire_step(heat as int, x, y, d, read, write),
            Cell::Seed => seed_step(x, y, d, read, write),
            Cell::Vine { growth, grown } => vine_step(growth as int, grown, x, y, d, read, write),
            Cell::Water { dx } => water_step(dx as int, x, y, d, read, write),
            Cell::Acid { t } => acid_step(t as int, x, y, d, read, write),
        }
    }
}

} // verus!
