//! What an evaluation leaves alone: the shape of the grid, and every place
//! that the rules give it no claim to.

use vstd::prelude::*;
use crate::cells::Cell;
use crate::coins::{Draws, Probe};
use crate::model::Grid;
use crate::rules::{
    FIRE_HEAT, VINE_GROWTH, acid_step, dissolved, fall_target, fire_step, flow_target, free,
    lateral, sand_step, seam_marked, seed_step, senses_acid, senses_fire, settled, step,
    vine_step, vine_target, water_step, wood_step,
};

verus! {

/// Whether the evaluation of `cell` at `(x, y)` may change the place
/// `(qx, qy)`: its own place, a place that held `Air` or acid when the tick
/// began, or, for water, sand right under it.
pub open spec fn claimable(cell: Cell, x: int, y: int, read: Grid, qx: int, qy: int) -> bool {
    ||| (qx == x && qy == y)
    ||| read.read(qx, qy) is Air
    ||| read.read(qx, qy) is Acid
    ||| (cell is Water && qx == x && qy == y + 1 && read.read(qx, qy) is Sand)
}

/// Whether the rule of `cell` may put `made` into the written grid: sand
/// moves or is eaten; wood stays or burns; fire cools by one or two; a seed
/// moves, roots or is lost; a vine burns, is eaten, stops, or hands one
/// growth less to a new segment; water moves, with any drift, and may lift
/// sand; acid moves or is used up.
pub open spec fn may_write(cell: Cell, made: Cell) -> bool {
    match cell {
        Cell::Air => false,
        Cell::Sand => made is Sand || made is Air,
        Cell::Wood { fuel } => made == cell || made == (Cell::Fire { heat: FIRE_HEAT }),
        Cell::Fire { heat } => made matches Cell::Fire { heat: h } && heat - 2 <= h <= heat - 1,
        Cell::Seed => made is Seed || made is Air || made == (Cell::Vine {
            growth: VINE_GROWTH,
            grown: false,
        }),
        Cell::Vine { growth, grown } => {
            ||| made is Air
            ||| made == (Cell::Fire { heat: FIRE_HEAT })
            ||| made == (Cell::Vine { growth, grown: true })
            ||| (!grown && growth > 0 && made == (Cell::Vine {
                growth: (growth - 1) as i32,
                grown: false,
            }))
        },
        Cell::Water { dx } => made is Water || made is Air || made is Sand,
        Cell::Acid { t } => made is Air || made == (Cell::Acid { t: 1 }),
    }
}

/// Whether `after` is a well-formed grid of the extent of `before` that
/// has every mark that `before` has and differs from it, cell for cell,
/// only where the evaluation of `cell` at `(x, y)` may change a place, and
/// only by cells that the rule of `cell` may write.
pub open spec fn within(before: Grid, after: Grid, cell: Cell, x: int, y: int, read: Grid) -> bool {
    &&& after.wf()
    &&& after.size == before.size
    &&& forall|qx: int, qy: int|
        #[trigger] after.read(qx, qy) != before.read(qx, qy) ==> claimable(cell, x, y, read, qx, qy)
            && may_write(cell, after.read(qx, qy))
    &&& forall|bx: int, by: int| before.is_dirty(bx, by) ==> #[trigger] after.is_dirty(bx, by)
}

/// What a write does, place by place and block by block.
pub proof fn lemma_write(g: Grid, cell: Cell, x: int, y: int, dirty: bool)
    requires
        g.wf(),
    ensures
        g.write(cell, x, y, dirty).wf(),
        g.write(cell, x, y, dirty).size == g.size,
        forall|qx: int, qy: int|
            #[trigger] g.write(cell, x, y, dirty).read(qx, qy) == if g.in_bounds(x, y) && qx == x
                && qy == y {
                cell
            } else {
                g.read(qx, qy)
            },
        forall|bx: int, by: int|
            #[trigger] g.write(cell, x, y, dirty).is_dirty(bx, by) == (g.is_dirty(bx, by) || (dirty
                && g.in_bounds(x, y) && bx == x / 16 && by == y / 16)),
{
}

/// What a mark does, place by place and block by block.
pub proof fn lemma_mark(g: Grid, x: int, y: int)
    requires
        g.wf(),
    ensures
        g.mark(x, y).wf(),
        g.mark(x, y).size == g.size,
        forall|qx: int, qy: int| #[trigger] g.mark(x, y).read(qx, qy) == g.read(qx, qy),
        forall|bx: int, by: int|
            #[trigger] g.mark(x, y).is_dirty(bx, by) == (g.is_dirty(bx, by) || (g.in_bounds(x, y)
                && bx == x / 16 && by == y / 16)),
{
}

/// Marking across the seams changes no cell and takes no mark off.
pub proof fn lemma_seam(x: int, y: int, g: Grid)
    requires
        g.wf(),
    ensures
        seam_marked(x, y, g).wf(),
        seam_marked(x, y, g).size == g.size,
        forall|qx: int, qy: int| #[trigger] seam_marked(x, y, g).read(qx, qy) == g.read(qx, qy),
        forall|bx: int, by: int| g.is_dirty(bx, by) ==> #[trigger] seam_marked(x, y, g).is_dirty(bx, by),
{
    let a = if x % 16 == 0 { g.mark(x - 1, y) } else { g };
    let b = if y % 16 == 0 { a.mark(x, y - 1) } else { a };
    let c = if x % 16 == 15 { b.mark(x + 1, y) } else { b };
    lemma_mark(g, x - 1, y);
    lemma_mark(a, x, y - 1);
    lemma_mark(b, x + 1, y);
    lemma_mark(c, x, y + 1);
}

/// A write at a place that the evaluation may change stays within its
/// claim.
proof fn lemma_within_write(
    before: Grid,
    g: Grid,
    c: Cell,
    px: int,
    py: int,
    dirty: bool,
    cell: Cell,
    x: int,
    y: int,
    read: Grid,
)
    requires
        within(before, g, cell, x, y, read),
        claimable(cell, x, y, read, px, py),
        may_write(cell, c),
    ensures
        within(before, g.write(c, px, py, dirty), cell, x, y, read),
{
    lemma_write(g, c, px, py, dirty);
    let after = g.write(c, px, py, dirty);
    assert forall|qx: int, qy: int| #[trigger]
        after.read(qx, qy) != before.read(qx, qy) implies claimable(cell, x, y, read, qx, qy)
        && may_write(cell, after.read(qx, qy)) by {
        if !(qx == px && qy == py) {
            assert(after.read(qx, qy) == g.read(qx, qy));
        }
    }
}

/// A mark stays within any claim.
proof fn lemma_within_mark(before: Grid, g: Grid, px: int, py: int, cell: Cell, x: int, y: int, read: Grid)
    requires
        within(before, g, cell, x, y, read),
    ensures
        within(before, g.mark(px, py), cell, x, y, read),
{
    lemma_mark(g, px, py);
    let after = g.mark(px, py);
    assert forall|qx: int, qy: int| #[trigger]
        after.read(qx, qy) != before.read(qx, qy) implies claimable(cell, x, y, read, qx, qy)
        && may_write(cell, after.read(qx, qy)) by {
        assert(after.read(qx, qy) == g.read(qx, qy));
    }
}

/// Gravity stays within the claim.
proof fn lemma_within_settled(
    before: Grid,
    g: Grid,
    c: Cell,
    sideways: int,
    cell: Cell,
    x: int,
    y: int,
    read: Grid,
)
    requires
        within(before, g, cell, x, y, read),
        may_write(cell, c),
    ensures
        within(before, settled(c, x, y, sideways, read, g), cell, x, y, read),
{
    match fall_target(x, y, sideways, read, g) {
        Some(t) => {
            lemma_within_write(before, g, c, t.0, t.1, true, cell, x, y, read);
            lemma_within_mark(before, g.write(c, t.0, t.1, true), t.0, t.1 - 1, cell, x, y, read);
        },
        None => {
            lemma_within_write(before, g, c, x, y, false, cell, x, y, read);
        },
    }
}

/// Used-up acid stays within the claim of whatever sensed it.
proof fn lemma_within_dissolved(g: Grid, probe: Probe, cell: Cell, x: int, y: int, read: Grid)
    requires
        g.wf(),
        senses_acid(probe, x, y, read),
        may_write(cell, Cell::Air),
    ensures
        within(g, dissolved(probe, x, y, g), cell, x, y, read),
{
    let t = probe.target(x, y);
    lemma_within_write(g, g, Cell::Air, t.0, t.1, false, cell, x, y, read);
}

/// Marking across the seams stays within any claim.
proof fn lemma_within_seam(before: Grid, g: Grid, cell: Cell, x: int, y: int, read: Grid)
    requires
        within(before, g, cell, x, y, read),
    ensures
        within(before, seam_marked(x, y, g), cell, x, y, read),
{
    let a = if x % 16 == 0 { g.mark(x - 1, y) } else { g };
    let b = if y % 16 == 0 { a.mark(x, y - 1) } else { a };
    let c = if x % 16 == 15 { b.mark(x + 1, y) } else { b };
    lemma_within_mark(before, g, x - 1, y, cell, x, y, read);
    lemma_within_mark(before, a, x, y - 1, cell, x, y, read);
    lemma_within_mark(before, b, x + 1, y, cell, x, y, read);
    lemma_within_mark(before, c, x, y + 1, cell, x, y, read);
}

proof fn lemma_within_sand(x: int, y: int, d: Draws, read: Grid, write: Grid)
    requires
        write.wf(),
    ensures
        within(write, sand_step(x, y, d, read, write), Cell::Sand, x, y, read),
{
    if senses_acid(d.acid, x, y, read) {
        lemma_within_dissolved(write, d.acid, Cell::Sand, x, y, read);
    } else {
        lemma_within_settled(write, write, Cell::Sand, lateral(d.right), Cell::Sand, x, y, read);
    }
}

proof fn lemma_within_wood(fuel: i32, x: int, y: int, d: Draws, read: Grid, write: Grid)
    requires
        write.wf(),
    ensures
        within(write, wood_step(fuel as int, x, y, d, read, write), Cell::Wood { fuel }, x, y, read),
{
    let cell = Cell::Wood { fuel };
    lemma_within_write(write, write, Cell::Fire { heat: FIRE_HEAT }, x, y, true, cell, x, y, read);
    lemma_within_write(write, write, cell, x, y, false, cell, x, y, read);
}

proof fn lemma_within_fire(heat: i32, x: int, y: int, d: Draws, read: Grid, write: Grid)
    requires
        write.wf(),
    ensures
        within(write, fire_step(heat as int, x, y, d, read, write), Cell::Fire { heat }, x, y, read),
{
    let cell = Cell::Fire { heat };
    let t = d.reach.target(x, y);
    if heat > 0 && read.read(t.0, t.1) is Air {
        let moved = Cell::Fire { heat: (heat - if d.quick { 2int } else { 1int }) as i32 };
        lemma_within_write(write, write, moved, t.0, t.1, true, cell, x, y, read);
    } else if heat > 0 {
        let stayed = Cell::Fire { heat: (heat - 1) as i32 };
        lemma_within_write(write, write, stayed, x, y, true, cell, x, y, read);
        lemma_within_seam(write, write.write(stayed, x, y, true), cell, x, y, read);
    }
}

proof fn lemma_within_seed(x: int, y: int, d: Draws, read: Grid, write: Grid)
    requires
        write.wf(),
    ensures
        within(write, seed_step(x, y, d, read, write), Cell::Seed, x, y, read),
{
    let cell = Cell::Seed;
    let side = lateral(d.right);
    lemma_within_settled(write, write, cell, side, cell, x, y, read);
    lemma_within_write(
        write,
        write,
        Cell::Vine { growth: VINE_GROWTH, grown: false },
        x,
        y,
        true,
        cell,
        x,
        y,
        read,
    );
    lemma_within_write(write, write, Cell::Air, x, y, true, cell, x, y, read);
}

proof fn lemma_within_vine(growth: i32, grown: bool, x: int, y: int, d: Draws, read: Grid, write: Grid)
    requires
        write.wf(),
    ensures
        within(
            write,
            vine_step(growth as int, grown, x, y, d, read, write),
            Cell::Vine { growth, grown },
            x,
            y,
            read,
        ),
{
    let cell = Cell::Vine { growth, grown };
    let t = vine_target(d.reach, x, y);
    if senses_fire(d.fire, x, y, read) {
        lemma_within_write(write, write, Cell::Fire { heat: FIRE_HEAT }, x, y, true, cell, x, y, read);
    } else if senses_acid(d.acid, x, y, read) {
        lemma_within_dissolved(write, d.acid, cell, x, y, read);
    } else if growth <= 0 || grown {
        lemma_within_write(write, write, Cell::Vine { growth, grown: true }, x, y, !grown, cell, x, y, read);
    } else if read.read(t.0, t.1) is Air {
        let child = Cell::Vine { growth: (growth - 1) as i32, grown: false };
        lemma_within_write(write, write, child, t.0, t.1, true, cell, x, y, read);
        lemma_within_write(
            write,
            write.write(child, t.0, t.1, true),
            Cell::Vine { growth, grown: true },
            x,
            y,
            true,
            cell,
            x,
            y,
            read,
        );
    } else {
        lemma_within_write(
            write,
            write,
            Cell::Vine { growth: (growth - 1) as i32, grown: false },
            x,
            y,
            true,
            cell,
            x,
            y,
            read,
        );
    }
}

proof fn lemma_within_water(dx: i32, x: int, y: int, d: Draws, read: Grid, write: Grid)
    requires
        write.wf(),
    ensures
        within(write, water_step(dx as int, x, y, d, read, write), Cell::Water { dx }, x, y, read),
{
    let cell = Cell::Water { dx };
    let to = flow_target(dx as int, x, d);
    if senses_acid(d.acid, x, y, read) {
        lemma_within_dissolved(write, d.acid, cell, x, y, read);
    } else if fall_target(x, y, dx as int, read, write) is Some {
        lemma_within_settled(write, write, cell, dx as int, cell, x, y, read);
    } else if read.read(x, y + 1) is Sand {
        lemma_within_write(write, write, Cell::Water { dx: 0 }, x, y + 1, true, cell, x, y, read);
        lemma_within_write(
            write,
            write.write(Cell::Water { dx: 0 }, x, y + 1, true),
            Cell::Sand,
            x,
            y,
            true,
            cell,
            x,
            y,
            read,
        );
    } else if to != x && free(read, write, to, y) {
        let a = write.mark(x - (to - x), y);
        let b = a.write(Cell::Air, x, y, false);
        lemma_within_mark(write, write, x - (to - x), y, cell, x, y, read);
        lemma_within_write(write, a, Cell::Air, x, y, false, cell, x, y, read);
        lemma_within_write(write, b, Cell::Water { dx: (to - x) as i32 }, to, y, true, cell, x, y, read);
    } else {
        lemma_within_write(write, write, Cell::Water { dx: 0 }, x, y, true, cell, x, y, read);
    }
}

proof fn lemma_within_acid(t: i32, x: int, y: int, d: Draws, read: Grid, write: Grid)
    requires
        write.wf(),
    ensures
        within(write, acid_step(t as int, x, y, d, read, write), Cell::Acid { t }, x, y, read),
{
    let cell = Cell::Acid { t };
    let side = lateral(d.right);
    match fall_target(x, y, side, read, write) {
        Some(_) => {
            lemma_within_settled(write, write, Cell::Acid { t: 1 }, side, cell, x, y, read);
        },
        None => {
            let left = if t > 0 { Cell::Air } else { Cell::Acid { t: 1 } };
            lemma_within_write(write, write, left, x, y, false, cell, x, y, read);
            lemma_within_mark(write, write.write(left, x, y, false), x, y + 1, cell, x, y, read);
        },
    }
}

/// An evaluation keeps the written grid well formed and of its extent, so
/// that every place holds exactly one cell afterwards as before. It takes
/// no mark off. It changes no place but the cell's own, places that held
/// `Air` or acid when the tick began, and sand right under evaluated water;
/// and what it puts there is a cell that the rule of its material may
/// write.
pub proof fn lemma_step_within(cell: Cell, x: int, y: int, d: Draws, read: Grid, write: Grid)
    requires
        write.wf(),
    ensures
        within(write, step(cell, x, y, d, read, write), cell, x, y, read),
{
    reveal(step);
    if write.is_empty(x, y) {
        match cell {
            Cell::Air => {},
            Cell::Sand => lemma_within_sand(x, y, d, read, write),
            Cell::Wood { fuel } => lemma_within_wood(fuel, x, y, d, read, write),
            Cell::Fire { heat } => lemma_within_fire(heat, x, y, d, read, write),
            Cell::Seed => lemma_within_seed(x, y, d, read, write),
            Cell::Vine { growth, grown } => lemma_within_vine(growth, grown, x, y, d, read, write),
            Cell::Water { dx } => lemma_within_water(dx, x, y, d, read, write),
            Cell::Acid { t } => lemma_within_acid(t, x, y, d, read, write),
        }
    }
}

/// An evaluation keeps the written grid well formed and of its extent:
/// afterwards, as before, every place holds exactly one cell. And it takes
/// no mark off.
pub proof fn lemma_step_wf(cell: Cell, x: int, y: int, d: Draws, read: Grid, write: Grid)
    requires
        write.wf(),
    ensures
        step(cell, x, y, d, read, write).wf(),
        step(cell, x, y, d, read, write).size == write.size,
        forall|bx: int, by: int|
            write.is_dirty(bx, by) ==> #[trigger] step(cell, x, y, d, read, write).is_dirty(bx, by),
{
    lemma_step_within(cell, x, y, d, read, write);
}

} // verus!
