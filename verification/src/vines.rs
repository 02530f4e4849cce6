//! Why vines stop growing: every vine segment and every seed holds a promise
//! of segments to come, no evaluation hands out more than the cell's own
//! promise, and so the promises of a grid never add up to more after a tick
//! than before.

use vstd::prelude::*;
use crate::cells::Cell;
use crate::coins::Draws;
use crate::frame::{lemma_mark, lemma_step_within, lemma_write, may_write};
use crate::model::Grid;
use crate::passes::{kept_by_steps, lemma_pass_invariant};
use crate::rules::{
    FIRE_HEAT, VINE_GROWTH, acid_step, fall_target, fire_step, flow_target, free, lateral,
    sand_step, seam_marked, seed_step, senses_acid, senses_fire, settled, step, vine_step,
    vine_target, water_step, wood_step,
};
use crate::sums::{
    Weights, block_sum, column_sum, covered, grid_sum, lemma_grid_sum_add, lemma_grid_sum_le,
    lemma_grid_sum_spike, lemma_grid_sum_update, lemma_grid_tally, marked_in_grid, spike, tally,
};
use crate::tick::{
    Coins, after_ticks, block_pass, cell_of, column_pass, grid_pass, prepared, tick,
};

verus! {

/// How many vine segments a cell may yet come to: a segment that still
/// grows, itself and one for each growth that it has left; a segment that
/// has stopped, itself; a seed, the vine that it may root as; anything
/// else, none.
pub open spec fn promise(c: Cell) -> nat {
    match c {
        Cell::Seed => (1 + VINE_GROWTH) as nat,
        Cell::Vine { growth, grown } => if grown || growth <= 0 {
            1
        } else {
            (1 + growth) as nat
        },
        _ => 0,
    }
}

/// The promise of the cell at each place of `g`.
pub open spec fn promises(g: Grid) -> Weights {
    |x: int, y: int| promise(g.read(x, y))
}

/// One for each place of `g` that holds a vine segment.
pub open spec fn vines(g: Grid) -> Weights {
    tally(|x: int, y: int| g.read(x, y) is Vine)
}

/// The promises of all the cells of `g` together.
pub open spec fn budget(g: Grid) -> nat {
    grid_sum(promises(g), g.blocks() as nat, g.blocks() as nat)
}

/// The number of vine segments in `g`.
pub open spec fn segments(g: Grid) -> nat {
    grid_sum(vines(g), g.blocks() as nat, g.blocks() as nat)
}

/// The number of vine segments is the number of cells that are vines.
pub proof fn lemma_segments_count(g: Grid)
    requires
        g.wf(),
    ensures
        segments(g) == g.count(|c: Cell| c is Vine),
{
    let n = g.blocks() as nat;
    let marked = |x: int, y: int| g.read(x, y) is Vine;
    lemma_grid_tally(marked, n, n);
    assert(marked_in_grid(marked, n, n) =~= g.places_of(|c: Cell| c is Vine));
}

/// A grid has no more vine segments than its cells promise.
pub proof fn lemma_segments_le_budget(g: Grid)
    ensures
        segments(g) <= budget(g),
{
    let n = g.blocks() as nat;
    assert forall|x: int, y: int| covered(n, n, x, y) implies #[trigger] vines(g)(x, y)
        <= #[trigger] promises(g)(x, y) by {}
    lemma_grid_sum_le(vines(g), promises(g), n, n);
}

/// A write changes the budget by what the new cell promises more than the
/// old one did.
pub proof fn lemma_budget_write(g: Grid, c: Cell, x: int, y: int, dirty: bool)
    requires
        g.wf(),
    ensures
        g.in_bounds(x, y) ==> budget(g.write(c, x, y, dirty)) + promise(g.read(x, y)) == budget(g)
            + promise(c),
        !g.in_bounds(x, y) ==> budget(g.write(c, x, y, dirty)) == budget(g),
        budget(g.write(c, x, y, dirty)) <= budget(g) + promise(c),
{
    let n = g.blocks() as nat;
    let after = g.write(c, x, y, dirty);
    lemma_write(g, c, x, y, dirty);
    if g.in_bounds(x, y) {
        assert forall|qx: int, qy: int| (qx, qy) != (x, y) implies #[trigger] promises(after)(
            qx,
            qy,
        ) == #[trigger] promises(g)(qx, qy) by {
            assert(after.read(qx, qy) == g.read(qx, qy));
        }
        lemma_grid_sum_update(promises(g), promises(after), x, y, n, n);
    } else {
        assert(after == g);
    }
}

/// A mark leaves the budget as it is.
proof fn lemma_budget_mark(g: Grid, x: int, y: int)
    requires
        g.wf(),
    ensures
        budget(g.mark(x, y)) == budget(g),
{
    let n = g.blocks() as nat;
    let after = g.mark(x, y);
    lemma_mark(g, x, y);
    assert forall|qx: int, qy: int| covered(n, n, qx, qy) implies #[trigger] promises(after)(
        qx,
        qy,
    ) <= #[trigger] promises(g)(qx, qy) by {
        assert(after.read(qx, qy) == g.read(qx, qy));
    }
    assert forall|qx: int, qy: int| covered(n, n, qx, qy) implies #[trigger] promises(g)(qx, qy)
        <= #[trigger] promises(after)(qx, qy) by {
        assert(after.read(qx, qy) == g.read(qx, qy));
    }
    lemma_grid_sum_le(promises(after), promises(g), n, n);
    lemma_grid_sum_le(promises(g), promises(after), n, n);
}

/// Whether `after` is a well-formed grid of the extent of `before` whose
/// budget is at most `more` above that of `before`.
pub open spec fn spends(before: Grid, after: Grid, more: nat) -> bool {
    &&& after.wf()
    &&& after.size == before.size
    &&& budget(after) <= budget(before) + more
}

proof fn lemma_spends_write(before: Grid, g: Grid, more: nat, c: Cell, x: int, y: int, dirty: bool)
    requires
        spends(before, g, more),
    ensures
        spends(before, g.write(c, x, y, dirty), more + promise(c)),
{
    lemma_write(g, c, x, y, dirty);
    lemma_budget_write(g, c, x, y, dirty);
}

proof fn lemma_spends_mark(before: Grid, g: Grid, more: nat, x: int, y: int)
    requires
        spends(before, g, more),
    ensures
        spends(before, g.mark(x, y), more),
{
    lemma_mark(g, x, y);
    lemma_budget_mark(g, x, y);
}

proof fn lemma_spends_settled(g: Grid, c: Cell, x: int, y: int, sideways: int, read: Grid)
    requires
        g.wf(),
    ensures
        spends(g, settled(c, x, y, sideways, read, g), promise(c)),
{
    match fall_target(x, y, sideways, read, g) {
        Some(t) => {
            lemma_spends_write(g, g, 0, c, t.0, t.1, true);
            lemma_spends_mark(g, g.write(c, t.0, t.1, true), promise(c), t.0, t.1 - 1);
        },
        None => {
            lemma_spends_write(g, g, 0, c, x, y, false);
        },
    }
}

proof fn lemma_spends_seam(before: Grid, g: Grid, more: nat, x: int, y: int)
    requires
        spends(before, g, more),
    ensures
        spends(before, seam_marked(x, y, g), more),
{
    let a = if x % 16 == 0 { g.mark(x - 1, y) } else { g };
    let b = if y % 16 == 0 { a.mark(x, y - 1) } else { a };
    let c = if x % 16 == 15 { b.mark(x + 1, y) } else { b };
    lemma_spends_mark(before, g, more, x - 1, y);
    lemma_spends_mark(before, a, more, x, y - 1);
    lemma_spends_mark(before, b, more, x + 1, y);
    lemma_spends_mark(before, c, more, x, y + 1);
}

proof fn lemma_spends_sand(x: int, y: int, d: Draws, read: Grid, write: Grid)
    requires
        write.wf(),
    ensures
        spends(write, sand_step(x, y, d, read, write), 0),
{
    let t = d.acid.target(x, y);
    lemma_spends_write(write, write, 0, Cell::Air, t.0, t.1, false);
    lemma_spends_settled(write, Cell::Sand, x, y, lateral(d.right), read);
}

proof fn lemma_spends_wood(fuel: i32, x: int, y: int, d: Draws, read: Grid, write: Grid)
    requires
        write.wf(),
    ensures
        spends(write, wood_step(fuel as int, x, y, d, read, write), 0),
{
    lemma_spends_write(write, write, 0, Cell::Fire { heat: FIRE_HEAT }, x, y, true);
    lemma_spends_write(write, write, 0, Cell::Wood { fuel }, x, y, false);
}

proof fn lemma_spends_fire(heat: i32, x: int, y: int, d: Draws, read: Grid, write: Grid)
    requires
        write.wf(),
    ensures
        spends(write, fire_step(heat as int, x, y, d, read, write), 0),
{
    let t = d.reach.target(x, y);
    let moved = Cell::Fire { heat: (heat - if d.quick { 2int } else { 1int }) as i32 };
    let stayed = Cell::Fire { heat: (heat - 1) as i32 };
    lemma_spends_write(write, write, 0, moved, t.0, t.1, true);
    lemma_spends_write(write, write, 0, stayed, x, y, true);
    lemma_spends_seam(write, write.write(stayed, x, y, true), 0, x, y);
}

proof fn lemma_spends_seed(x: int, y: int, d: Draws, read: Grid, write: Grid)
    requires
        write.wf(),
    ensures
        spends(write, seed_step(x, y, d, read, write), promise(Cell::Seed)),
{
    lemma_spends_settled(write, Cell::Seed, x, y, lateral(d.right), read);
    lemma_spends_write(write, write, 0, Cell::Vine { growth: VINE_GROWTH, grown: false }, x, y, true);
    lemma_spends_write(write, write, 0, Cell::Air, x, y, true);
}

proof fn lemma_spends_vine(growth: i32, grown: bool, x: int, y: int, d: Draws, read: Grid, write: Grid)
    requires
        write.wf(),
    ensures
        spends(
            write,
            vine_step(growth as int, grown, x, y, d, read, write),
            promise(Cell::Vine { growth, grown }),
        ),
{
    let t = vine_target(d.reach, x, y);
    let a = d.acid.target(x, y);
    if senses_fire(d.fire, x, y, read) {
        lemma_spends_write(write, write, 0, Cell::Fire { heat: FIRE_HEAT }, x, y, true);
    } else if senses_acid(d.acid, x, y, read) {
        lemma_spends_write(write, write, 0, Cell::Air, a.0, a.1, false);
    } else if growth <= 0 || grown {
        lemma_spends_write(write, write, 0, Cell::Vine { growth, grown: true }, x, y, !grown);
    } else if read.read(t.0, t.1) is Air {
        let child = Cell::Vine { growth: (growth - 1) as i32, grown: false };
        lemma_spends_write(write, write, 0, child, t.0, t.1, true);
        lemma_spends_write(
            write,
            write.write(child, t.0, t.1, true),
            promise(child),
            Cell::Vine { growth, grown: true },
            x,
            y,
            true,
        );
    } else {
        lemma_spends_write(
            write,
            write,
            0,
            Cell::Vine { growth: (growth - 1) as i32, grown: false },
            x,
            y,
            true,
        );
    }
}

proof fn lemma_spends_water(dx: i32, x: int, y: int, d: Draws, read: Grid, write: Grid)
    requires
        write.wf(),
    ensures
        spends(write, water_step(dx as int, x, y, d, read, write), 0),
{
    let a = d.acid.target(x, y);
    let to = flow_target(dx as int, x, d);
    if senses_acid(d.acid, x, y, read) {
        lemma_spends_write(write, write, 0, Cell::Air, a.0, a.1, false);
    } else if fall_target(x, y, dx as int, read, write) is Some {
        lemma_spends_settled(write, Cell::Water { dx }, x, y, dx as int, read);
    } else if read.read(x, y + 1) is Sand {
        lemma_spends_write(write, write, 0, Cell::Water { dx: 0 }, x, y + 1, true);
        lemma_spends_write(
            write,
            write.write(Cell::Water { dx: 0 }, x, y + 1, true),
            0,
            Cell::Sand,
            x,
            y,
            true,
        );
    } else if to != x && free(read, write, to, y) {
        let m = write.mark(x - (to - x), y);
        let e = m.write(Cell::Air, x, y, false);
        lemma_spends_mark(write, write, 0, x - (to - x), y);
        lemma_spends_write(write, m, 0, Cell::Air, x, y, false);
        lemma_spends_write(write, e, 0, Cell::Water { dx: (to - x) as i32 }, to, y, true);
    } else {
        lemma_spends_write(write, write, 0, Cell::Water { dx: 0 }, x, y, true);
    }
}

proof fn lemma_spends_acid(t: i32, x: int, y: int, d: Draws, read: Grid, write: Grid)
    requires
        write.wf(),
    ensures
        spends(write, acid_step(t as int, x, y, d, read, write), 0),
{
    let side = lateral(d.right);
    match fall_target(x, y, side, read, write) {
        Some(_) => {
            lemma_spends_settled(write, Cell::Acid { t: 1 }, x, y, side, read);
        },
        None => {
            let left = if t > 0 { Cell::Air } else { Cell::Acid { t: 1 } };
            lemma_spends_write(write, write, 0, left, x, y, false);
            lemma_spends_mark(write, write.write(left, x, y, false), 0, x, y + 1);
        },
    }
}

/// No evaluation raises the budget by more than the evaluated cell
/// promises: what a vine hands on to a new segment it gives up itself, and
/// nothing but a vine or a seed hands out anything.
pub proof fn lemma_step_spends(cell: Cell, x: int, y: int, d: Draws, read: Grid, write: Grid)
    requires
        write.wf(),
    ensures
        spends(write, step(cell, x, y, d, read, write), promise(cell)),
{
    reveal(step);
    if write.is_empty(x, y) {
        match cell {
            Cell::Air => {},
            Cell::Sand => lemma_spends_sand(x, y, d, read, write),
            Cell::Wood { fuel } => lemma_spends_wood(fuel, x, y, d, read, write),
            Cell::Fire { heat } => lemma_spends_fire(heat, x, y, d, read, write),
            Cell::Seed => lemma_spends_seed(x, y, d, read, write),
            Cell::Vine { growth, grown } => lemma_spends_vine(growth, grown, x, y, d, read, write),
            Cell::Water { dx } => lemma_spends_water(dx, x, y, d, read, write),
            Cell::Acid { t } => lemma_spends_acid(t, x, y, d, read, write),
        }
    }
}

/// The promises of the cells of `read` that a pass evaluates: those in
/// dirty blocks.
pub open spec fn dirty_promises(read: Grid) -> Weights {
    |x: int, y: int| if read.is_dirty(x / 16, y / 16) { promise(read.read(x, y)) } else { 0nat }
}

proof fn lemma_block_pass_spends(bx: int, by: int, k: nat, coins: Coins, read: Grid, write: Grid)
    requires
        write.wf(),
        k <= 256,
    ensures
        spends(
            write,
            block_pass(bx, by, k, coins, read, write),
            block_sum(promises(read), bx, by, k),
        ),
    decreases k,
{
    if k > 0 {
        lemma_block_pass_spends(bx, by, (k - 1) as nat, coins, read, write);
        let p = cell_of(bx, by, k - 1);
        let before = block_pass(bx, by, (k - 1) as nat, coins, read, write);
        lemma_step_spends(read.read(p.0, p.1), p.0, p.1, coins[p], read, before);
    }
}

proof fn lemma_dirty_block_sum(read: Grid, bx: int, by: int, k: nat)
    requires
        k <= 256,
    ensures
        block_sum(dirty_promises(read), bx, by, k) == if read.is_dirty(bx, by) {
            block_sum(promises(read), bx, by, k)
        } else {
            0
        },
    decreases k,
{
    if k > 0 {
        lemma_dirty_block_sum(read, bx, by, (k - 1) as nat);
        let p = cell_of(bx, by, k - 1);
        assert(dirty_promises(read)(p.0, p.1) == if read.is_dirty(bx, by) {
            promises(read)(p.0, p.1)
        } else {
            0
        });
    }
}

proof fn lemma_column_pass_spends(bx: int, j: nat, coins: Coins, read: Grid, write: Grid)
    requires
        write.wf(),
    ensures
        spends(
            write,
            column_pass(bx, j, coins, read, write),
            column_sum(dirty_promises(read), bx, j),
        ),
    decreases j,
{
    if j > 0 {
        lemma_column_pass_spends(bx, (j - 1) as nat, coins, read, write);
        let before = column_pass(bx, (j - 1) as nat, coins, read, write);
        lemma_block_pass_spends(bx, j - 1, 256, coins, read, before);
        lemma_dirty_block_sum(read, bx, j - 1, 256);
    }
}

proof fn lemma_grid_pass_spends(i: nat, coins: Coins, read: Grid, write: Grid)
    requires
        write.wf(),
    ensures
        spends(
            write,
            grid_pass(i, coins, read, write),
            grid_sum(dirty_promises(read), read.blocks() as nat, i),
        ),
    decreases i,
{
    if i > 0 {
        lemma_grid_pass_spends((i - 1) as nat, coins, read, write);
        let before = grid_pass((i - 1) as nat, coins, read, write);
        lemma_column_pass_spends(i - 1, read.blocks() as nat, coins, read, before);
    }
}

/// After a tick in which nothing is spawned, the cells of the grid promise
/// no more vine segments than they did before, whatever the coins were.
pub proof fn lemma_tick_keeps_budget(coins: Coins, read: Grid, write: Grid)
    requires
        read.wf(),
        write.wf(),
        write.size == read.size,
    ensures
        tick(coins, read, write).wf(),
        tick(coins, read, write).size == read.size,
        budget(tick(coins, read, write)) <= budget(read),
{
    let n = read.blocks() as nat;
    let start = prepared(read, write);
    lemma_grid_pass_spends(n, coins, read, start);
    assert forall|x: int, y: int| covered(n, n, x, y) implies #[trigger] promises(read)(x, y)
        == promises(start)(x, y) + dirty_promises(read)(x, y) by {
        assert(start.read(x, y) == if read.is_dirty(x / 16, y / 16) {
            Cell::Air
        } else {
            read.read(x, y)
        });
    }
    lemma_grid_sum_add(promises(start), dirty_promises(read), promises(read), n, n);
}

/// After a tick in which nothing is spawned, the grid holds no more vine
/// segments than its cells promised before the tick. A grid whose one vine
/// has a growth of fifty, and which holds no seed, promises fifty-one, and
/// so never comes to hold more than fifty-one segments.
pub proof fn lemma_tick_bounds_segments(coins: Coins, read: Grid, write: Grid)
    requires
        read.wf(),
        write.wf(),
        write.size == read.size,
    ensures
        segments(tick(coins, read, write)) <= budget(read),
{
    lemma_tick_keeps_budget(coins, read, write);
    lemma_segments_le_budget(tick(coins, read, write));
}

/// A vine segment never writes a segment with more growth than it has
/// itself: where its evaluation leaves a segment at its own place, that
/// one has its growth or one less; where it leaves one elsewhere, that one
/// has one less, and the segment that wrote it is grown and writes no
/// other.
pub proof fn lemma_vine_growth_never_rises(
    growth: i32,
    grown: bool,
    x: int,
    y: int,
    d: Draws,
    read: Grid,
    write: Grid,
    qx: int,
    qy: int,
)
    requires
        write.wf(),
        step(Cell::Vine { growth, grown }, x, y, d, read, write).read(qx, qy) != write.read(qx, qy),
        step(Cell::Vine { growth, grown }, x, y, d, read, write).read(qx, qy) is Vine,
    ensures
        ({
            let made = step(Cell::Vine { growth, grown }, x, y, d, read, write).read(qx, qy);
            let own = step(Cell::Vine { growth, grown }, x, y, d, read, write).read(x, y);
            &&& made->growth <= growth
            &&& made->growth >= growth - 1
            &&& (qx, qy) != (x, y) ==> {
                &&& made == (Cell::Vine { growth: (growth - 1) as i32, grown: false })
                &&& growth > 0
                &&& own == (Cell::Vine { growth, grown: true })
            }
        }),
{
    let cell = Cell::Vine { growth, grown };
    lemma_step_within(cell, x, y, d, read, write);
    if (qx, qy) != (x, y) {
        reveal(step);
        let t = vine_target(d.reach, x, y);
        let a = d.acid.target(x, y);
        lemma_write(write, Cell::Fire { heat: FIRE_HEAT }, x, y, true);
        lemma_write(write, Cell::Air, a.0, a.1, false);
        lemma_write(write, Cell::Vine { growth, grown: true }, x, y, !grown);
        lemma_write(write, Cell::Vine { growth: (growth - 1) as i32, grown: false }, x, y, true);
        let child = Cell::Vine { growth: (growth - 1) as i32, grown: false };
        lemma_write(write, child, t.0, t.1, true);
        lemma_write(write.write(child, t.0, t.1, true), Cell::Vine { growth, grown: true }, x, y, true);
    }
}

/// Whether no vine segment of `g` has more growth than `bound`.
pub open spec fn capped(g: Grid, bound: int) -> bool {
    forall|x: int, y: int| #[trigger] g.read(x, y) is Vine ==> g.read(x, y)->growth <= bound
}

/// After a tick in which nothing is spawned, no vine segment has more
/// growth than the segments had before it, whatever the coins were: growth
/// is handed on and used up, never made. `bound` must be at least the
/// growth of a fresh vine if the grid holds a seed.
pub proof fn lemma_tick_caps_growth(coins: Coins, read: Grid, write: Grid, bound: int)
    requires
        read.wf(),
        write.wf(),
        write.size == read.size,
        capped(read, bound),
        forall|x: int, y: int| #[trigger] read.read(x, y) is Seed ==> VINE_GROWTH <= bound,
    ensures
        capped(tick(coins, read, write), bound),
{
    let start = prepared(read, write);
    let inv = |g: Grid| capped(g, bound);
    assert(inv(start)) by {
        assert forall|x: int, y: int| #[trigger] start.read(x, y) is Vine implies start.read(
            x,
            y,
        )->growth <= bound by {
            assert(start.read(x, y) == read.read(x, y));
        }
    }
    assert(kept_by_steps(inv, read, start.size)) by {
        assert forall|x: int, y: int, d: Draws, w: Grid|
            w.wf() && w.size == start.size && inv(w) implies inv(
            #[trigger] step(read.read(x, y), x, y, d, read, w),
        ) by {
            let cell = read.read(x, y);
            let after = step(cell, x, y, d, read, w);
            lemma_step_within(cell, x, y, d, read, w);
            assert forall|qx: int, qy: int| #[trigger] after.read(qx, qy) is Vine implies after.read(
                qx,
                qy,
            )->growth <= bound by {
                if after.read(qx, qy) != w.read(qx, qy) {
                    assert(may_write(cell, after.read(qx, qy)));
                } else {
                    assert(w.read(qx, qy) is Vine);
                }
            }
        }
    }
    lemma_pass_invariant(inv, coins, read, start);
}

/// However many ticks pass in which nothing is spawned, and whatever
/// their coins are, the cells of the grid never promise more vine segments
/// than they did at the start, and the grid never holds more.
pub proof fn lemma_ticks_keep_budget(coins: Seq<Coins>, read: Grid, write: Grid)
    requires
        read.wf(),
        write.wf(),
        write.size == read.size,
    ensures
        after_ticks(coins, read, write).0.wf(),
        after_ticks(coins, read, write).1.wf(),
        after_ticks(coins, read, write).0.size == read.size,
        after_ticks(coins, read, write).1.size == read.size,
        budget(after_ticks(coins, read, write).0) <= budget(read),
        segments(after_ticks(coins, read, write).0) <= budget(read),
    decreases coins.len(),
{
    if coins.len() > 0 {
        lemma_ticks_keep_budget(coins.drop_last(), read, write);
        let before = after_ticks(coins.drop_last(), read, write);
        lemma_tick_keeps_budget(coins.last(), before.0, before.1);
    }
    lemma_segments_le_budget(after_ticks(coins, read, write).0);
}

/// However many ticks pass in which nothing is spawned, and whatever
/// their coins are, no vine segment has more growth than the largest that
/// a segment had at the start, or than a fresh vine has.
pub proof fn lemma_ticks_cap_growth(coins: Seq<Coins>, read: Grid, write: Grid, bound: int)
    requires
        read.wf(),
        write.wf(),
        write.size == read.size,
        capped(read, bound),
        VINE_GROWTH <= bound,
    ensures
        capped(after_ticks(coins, read, write).0, bound),
    decreases coins.len(),
{
    if coins.len() > 0 {
        lemma_ticks_cap_growth(coins.drop_last(), read, write, bound);
        lemma_ticks_keep_budget(coins.drop_last(), read, write);
        let before = after_ticks(coins.drop_last(), read, write);
        lemma_tick_caps_growth(coins.last(), before.0, before.1, bound);
    }
}

/// An empty grid promises no vine segment.
proof fn lemma_fresh_budget(size: int)
    ensures
        budget(Grid::fresh(size)) == 0,
{
    let g = Grid::fresh(size);
    let n = g.blocks() as nat;
    assert forall|x: int, y: int| covered(n, n, x, y) implies #[trigger] promises(g)(x, y)
        <= #[trigger] spike(0, 0, 0)(x, y) by {
        assert(g.read(x, y) == Cell::Air);
    }
    lemma_grid_sum_le(promises(g), spike(0, 0, 0), n, n);
    lemma_grid_sum_spike(0, 0, 0, n, n);
}

/// A vine with a growth of fifty, alone on the grid, never comes to more
/// than fifty-one segments, however many ticks pass in which nothing is
/// spawned and whatever their coins are.
pub proof fn lemma_vine_never_exceeds_budget(coins: Seq<Coins>, size: int, x: int, y: int)
    requires
        Grid::fresh(size).in_bounds(x, y),
    ensures
        segments(
            after_ticks(
                coins,
                Grid::fresh(size).write(Cell::Vine { growth: VINE_GROWTH, grown: false }, x, y, true),
                Grid::fresh(size),
            ).0,
        ) <= 1 + VINE_GROWTH,
{
    let vine = Cell::Vine { growth: VINE_GROWTH, grown: false };
    let empty = Grid::fresh(size);
    let read = empty.write(vine, x, y, true);
    lemma_fresh_budget(size);
    lemma_write(empty, vine, x, y, true);
    lemma_budget_write(empty, vine, x, y, true);
    lemma_ticks_keep_budget(coins, read, empty);
}

} // verus!
