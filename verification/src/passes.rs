//! What holds of a whole pass over the dirty blocks because it holds of
//! each evaluation.

use vstd::prelude::*;
use crate::coins::Draws;
use crate::frame::{claimable, lemma_step_within, lemma_step_wf};
use crate::model::Grid;
use crate::rules::step;
use crate::tick::{Coins, block_pass, cell_of, column_pass, grid_pass, prepared, rules_pass};

verus! {

/// The prepared grid is well formed and has the extent of the written one.
pub proof fn lemma_prepared_wf(read: Grid, write: Grid)
    requires
        write.wf(),
    ensures
        prepared(read, write).wf(),
        prepared(read, write).size == write.size,
{
}

/// Whether `after` is a well-formed grid of the extent of `before` that
/// has every mark that `before` has.
pub open spec fn extends(before: Grid, after: Grid) -> bool {
    &&& after.wf()
    &&& after.size == before.size
    &&& forall|bx: int, by: int| before.is_dirty(bx, by) ==> #[trigger] after.is_dirty(bx, by)
}

/// The cells of a block keep the written grid well formed and of its
/// extent, and take no mark off.
proof fn lemma_block_pass_wf(bx: int, by: int, k: nat, coins: Coins, read: Grid, write: Grid)
    requires
        write.wf(),
    ensures
        extends(write, block_pass(bx, by, k, coins, read, write)),
    decreases k,
{
    if k > 0 {
        lemma_block_pass_wf(bx, by, (k - 1) as nat, coins, read, write);
        let p = cell_of(bx, by, k - 1);
        lemma_step_wf(
            read.read(p.0, p.1),
            p.0,
            p.1,
            coins[p],
            read,
            block_pass(bx, by, (k - 1) as nat, coins, read, write),
        );
    }
}

/// The blocks of a column keep the written grid well formed and of its
/// extent, and take no mark off.
proof fn lemma_column_pass_wf(bx: int, j: nat, coins: Coins, read: Grid, write: Grid)
    requires
        write.wf(),
    ensures
        extends(write, column_pass(bx, j, coins, read, write)),
    decreases j,
{
    if j > 0 {
        lemma_column_pass_wf(bx, (j - 1) as nat, coins, read, write);
        lemma_block_pass_wf(
            bx,
            j - 1,
            256,
            coins,
            read,
            column_pass(bx, (j - 1) as nat, coins, read, write),
        );
    }
}

/// The columns keep the written grid well formed and of its extent, and
/// take no mark off.
proof fn lemma_grid_pass_wf(i: nat, coins: Coins, read: Grid, write: Grid)
    requires
        write.wf(),
    ensures
        extends(write, grid_pass(i, coins, read, write)),
    decreases i,
{
    if i > 0 {
        lemma_grid_pass_wf((i - 1) as nat, coins, read, write);
        lemma_column_pass_wf(
            i - 1,
            read.blocks() as nat,
            coins,
            read,
            grid_pass((i - 1) as nat, coins, read, write),
        );
    }
}

/// Whatever the coins, a pass keeps the written grid well formed and of its
/// extent: after it, as before, every place holds exactly one cell. And it
/// takes no mark off.
pub proof fn lemma_rules_pass_wf(coins: Coins, read: Grid, write: Grid)
    requires
        write.wf(),
    ensures
        extends(write, rules_pass(coins, read, write)),
{
    lemma_grid_pass_wf(read.blocks() as nat, coins, read, write);
}

/// Whether every evaluation of a cell of `read`, at its place and with any
/// coins, keeps `inv` on well-formed grids of the extent `size`.
pub open spec fn kept_by_steps(inv: spec_fn(Grid) -> bool, read: Grid, size: int) -> bool {
    forall|x: int, y: int, d: Draws, w: Grid|
        w.wf() && w.size == size && inv(w) ==> inv(
            #[trigger] step(read.read(x, y), x, y, d, read, w),
        )
}

proof fn lemma_block_pass_invariant(
    inv: spec_fn(Grid) -> bool,
    bx: int,
    by: int,
    k: nat,
    coins: Coins,
    read: Grid,
    write: Grid,
)
    requires
        write.wf(),
        inv(write),
        kept_by_steps(inv, read, write.size),
    ensures
        inv(block_pass(bx, by, k, coins, read, write)),
        extends(write, block_pass(bx, by, k, coins, read, write)),
    decreases k,
{
    if k > 0 {
        lemma_block_pass_invariant(inv, bx, by, (k - 1) as nat, coins, read, write);
        let p = cell_of(bx, by, k - 1);
        let before = block_pass(bx, by, (k - 1) as nat, coins, read, write);
        lemma_step_wf(read.read(p.0, p.1), p.0, p.1, coins[p], read, before);
    }
}

proof fn lemma_column_pass_invariant(
    inv: spec_fn(Grid) -> bool,
    bx: int,
    j: nat,
    coins: Coins,
    read: Grid,
    write: Grid,
)
    requires
        write.wf(),
        inv(write),
        kept_by_steps(inv, read, write.size),
    ensures
        inv(column_pass(bx, j, coins, read, write)),
        extends(write, column_pass(bx, j, coins, read, write)),
    decreases j,
{
    if j > 0 {
        lemma_column_pass_invariant(inv, bx, (j - 1) as nat, coins, read, write);
        let before = column_pass(bx, (j - 1) as nat, coins, read, write);
        lemma_block_pass_invariant(inv, bx, j - 1, 256, coins, read, before);
    }
}

proof fn lemma_grid_pass_invariant(
    inv: spec_fn(Grid) -> bool,
    i: nat,
    coins: Coins,
    read: Grid,
    write: Grid,
)
    requires
        write.wf(),
        inv(write),
        kept_by_steps(inv, read, write.size),
    ensures
        inv(grid_pass(i, coins, read, write)),
        extends(write, grid_pass(i, coins, read, write)),
    decreases i,
{
    if i > 0 {
        lemma_grid_pass_invariant(inv, (i - 1) as nat, coins, read, write);
        let before = grid_pass((i - 1) as nat, coins, read, write);
        lemma_column_pass_invariant(inv, i - 1, read.blocks() as nat, coins, read, before);
    }
}

/// What every evaluation keeps, a pass keeps.
pub proof fn lemma_pass_invariant(inv: spec_fn(Grid) -> bool, coins: Coins, read: Grid, write: Grid)
    requires
        write.wf(),
        inv(write),
        kept_by_steps(inv, read, write.size),
    ensures
        inv(rules_pass(coins, read, write)),
{
    lemma_grid_pass_invariant(inv, read.blocks() as nat, coins, read, write);
}

/// The number of the cell at `(x, y)` within its block, counting row by row.
pub open spec fn index_in_block(x: int, y: int) -> int {
    x % 16 + 16 * (y % 16)
}

/// Whether the read grid holds nothing but `Air` apart from the place
/// `(x, y)`.
pub open spec fn alone(read: Grid, x: int, y: int) -> bool {
    forall|qx: int, qy: int| (qx, qy) != (x, y) ==> #[trigger] read.read(qx, qy) is Air
}

proof fn lemma_block_pass_alone(bx: int, by: int, k: nat, coins: Coins, read: Grid, write: Grid, x: int, y: int)
    requires
        alone(read, x, y),
        k <= 256,
    ensures
        block_pass(bx, by, k, coins, read, write) == if bx == x / 16 && by == y / 16 && k
            > index_in_block(x, y) {
            step(read.read(x, y), x, y, coins[(x, y)], read, write)
        } else {
            write
        },
    decreases k,
{
    if k > 0 {
        lemma_block_pass_alone(bx, by, (k - 1) as nat, coins, read, write, x, y);
        let p = cell_of(bx, by, k - 1);
        let before = block_pass(bx, by, (k - 1) as nat, coins, read, write);
        if p == (x, y) {
            assert(bx == x / 16 && by == y / 16 && k - 1 == index_in_block(x, y));
        } else {
            assert(step(read.read(p.0, p.1), p.0, p.1, coins[p], read, before) == before) by {
                reveal(step);
            }
        }
    }
}

proof fn lemma_column_pass_alone(bx: int, j: nat, coins: Coins, read: Grid, write: Grid, x: int, y: int)
    requires
        alone(read, x, y),
    ensures
        column_pass(bx, j, coins, read, write) == if bx == x / 16 && 0 <= y / 16 < j
            && read.is_dirty(x / 16, y / 16) {
            step(read.read(x, y), x, y, coins[(x, y)], read, write)
        } else {
            write
        },
    decreases j,
{
    if j > 0 {
        lemma_column_pass_alone(bx, (j - 1) as nat, coins, read, write, x, y);
        let before = column_pass(bx, (j - 1) as nat, coins, read, write);
        lemma_block_pass_alone(bx, j - 1, 256, coins, read, before, x, y);
    }
}

proof fn lemma_grid_pass_alone(i: nat, coins: Coins, read: Grid, write: Grid, x: int, y: int)
    requires
        alone(read, x, y),
    ensures
        grid_pass(i, coins, read, write) == if 0 <= x / 16 < i && read.is_dirty(x / 16, y / 16) {
            step(read.read(x, y), x, y, coins[(x, y)], read, write)
        } else {
            write
        },
    decreases i,
{
    if i > 0 {
        lemma_grid_pass_alone((i - 1) as nat, coins, read, write, x, y);
        let before = grid_pass((i - 1) as nat, coins, read, write);
        lemma_column_pass_alone(i - 1, read.blocks() as nat, coins, read, before, x, y);
    }
}

/// Where the read grid holds a single cell that is not `Air`, a pass is one
/// evaluation of that cell if its block is dirty, and nothing if not.
pub proof fn lemma_pass_alone(coins: Coins, read: Grid, write: Grid, x: int, y: int)
    requires
        alone(read, x, y),
    ensures
        rules_pass(coins, read, write) == if read.is_dirty(x / 16, y / 16) {
            step(read.read(x, y), x, y, coins[(x, y)], read, write)
        } else {
            write
        },
{
    lemma_grid_pass_alone(read.blocks() as nat, coins, read, write, x, y);
}

/// Whether no cell but its own can change the place `(x, y)` in this tick:
/// it held neither `Air` nor acid when the tick began, nor sand under water.
pub open spec fn sheltered(read: Grid, x: int, y: int) -> bool {
    let c = read.read(x, y);
    !(c is Air) && !(c is Acid) && !(c is Sand && read.read(x, y - 1) is Water)
}

/// Whether `w` may be the written grid at the moment the cell at `(x, y)`
/// is evaluated, in a pass that began with `start`: well formed, of the
/// same extent, and with that place as `start` had it.
pub open spec fn untouched_at(w: Grid, start: Grid, x: int, y: int) -> bool {
    w.wf() && w.size == start.size && w.read(x, y) == start.read(x, y)
}

/// The evaluation of another cell leaves a sheltered place as it is.
pub proof fn lemma_step_spares(cell_at: (int, int), d: Draws, read: Grid, write: Grid, x: int, y: int)
    requires
        write.wf(),
        sheltered(read, x, y),
        cell_at != (x, y),
    ensures
        step(read.read(cell_at.0, cell_at.1), cell_at.0, cell_at.1, d, read, write).read(x, y)
            == write.read(x, y),
{
    let cell = read.read(cell_at.0, cell_at.1);
    lemma_step_within(cell, cell_at.0, cell_at.1, d, read, write);
}

/// What a pass has made of the sheltered place `(x, y)` once the cell
/// there has been evaluated, on the written grid `w`: the place is as that
/// evaluation left it, and so is every mark that it set.
pub open spec fn settled_at(after: Grid, coins: Coins, read: Grid, w: Grid, x: int, y: int) -> bool {
    let own = step(read.read(x, y), x, y, coins[(x, y)], read, w);
    &&& after.read(x, y) == own.read(x, y)
    &&& forall|bx: int, by: int| own.is_dirty(bx, by) ==> #[trigger] after.is_dirty(bx, by)
}

proof fn lemma_block_pass_sheltered(
    bx: int,
    by: int,
    k: nat,
    coins: Coins,
    read: Grid,
    write: Grid,
    x: int,
    y: int,
) -> (w: Grid)
    requires
        write.wf(),
        sheltered(read, x, y),
        k <= 256,
    ensures
        extends(write, block_pass(bx, by, k, coins, read, write)),
        untouched_at(w, write, x, y),
        if bx == x / 16 && by == y / 16 && k > index_in_block(x, y) {
            settled_at(block_pass(bx, by, k, coins, read, write), coins, read, w, x, y)
        } else {
            block_pass(bx, by, k, coins, read, write).read(x, y) == write.read(x, y)
        },
    decreases k,
{
    if k == 0 {
        write
    } else {
        let w = lemma_block_pass_sheltered(bx, by, (k - 1) as nat, coins, read, write, x, y);
        let p = cell_of(bx, by, k - 1);
        let before = block_pass(bx, by, (k - 1) as nat, coins, read, write);
        lemma_step_wf(read.read(p.0, p.1), p.0, p.1, coins[p], read, before);
        if p == (x, y) {
            before
        } else {
            lemma_step_spares(p, coins[p], read, before, x, y);
            w
        }
    }
}

proof fn lemma_column_pass_sheltered(
    bx: int,
    j: nat,
    coins: Coins,
    read: Grid,
    write: Grid,
    x: int,
    y: int,
) -> (w: Grid)
    requires
        write.wf(),
        sheltered(read, x, y),
    ensures
        extends(write, column_pass(bx, j, coins, read, write)),
        untouched_at(w, write, x, y),
        if bx == x / 16 && 0 <= y / 16 < j && read.is_dirty(x / 16, y / 16) {
            settled_at(column_pass(bx, j, coins, read, write), coins, read, w, x, y)
        } else {
            column_pass(bx, j, coins, read, write).read(x, y) == write.read(x, y)
        },
    decreases j,
{
    if j == 0 {
        write
    } else {
        let w = lemma_column_pass_sheltered(bx, (j - 1) as nat, coins, read, write, x, y);
        let before = column_pass(bx, (j - 1) as nat, coins, read, write);
        let v = lemma_block_pass_sheltered(bx, j - 1, 256, coins, read, before, x, y);
        if bx == x / 16 && j - 1 == y / 16 {
            v
        } else {
            w
        }
    }
}

proof fn lemma_grid_pass_sheltered(i: nat, coins: Coins, read: Grid, write: Grid, x: int, y: int) -> (w: Grid)
    requires
        write.wf(),
        sheltered(read, x, y),
    ensures
        extends(write, grid_pass(i, coins, read, write)),
        untouched_at(w, write, x, y),
        if 0 <= x / 16 < i && read.is_dirty(x / 16, y / 16) {
            settled_at(grid_pass(i, coins, read, write), coins, read, w, x, y)
        } else {
            grid_pass(i, coins, read, write).read(x, y) == write.read(x, y)
        },
    decreases i,
{
    if i == 0 {
        write
    } else {
        let w = lemma_grid_pass_sheltered((i - 1) as nat, coins, read, write, x, y);
        let before = grid_pass((i - 1) as nat, coins, read, write);
        let v = lemma_column_pass_sheltered(i - 1, read.blocks() as nat, coins, read, before, x, y);
        if i - 1 == x / 16 {
            v
        } else {
            w
        }
    }
}

/// What a pass makes of a sheltered place. In a clean block the place
/// stays as the pass found it. In a dirty block it is what the one
/// evaluation of its own cell makes of it, on a written grid `w` in which
/// the place still was as the pass found it; and the marks that this
/// evaluation set are there at the end.
pub proof fn lemma_pass_sheltered(coins: Coins, read: Grid, write: Grid, x: int, y: int) -> (w: Grid)
    requires
        write.wf(),
        sheltered(read, x, y),
    ensures
        extends(write, rules_pass(coins, read, write)),
        untouched_at(w, write, x, y),
        if read.is_dirty(x / 16, y / 16) {
            settled_at(rules_pass(coins, read, write), coins, read, w, x, y)
        } else {
            rules_pass(coins, read, write).read(x, y) == write.read(x, y)
        },
{
    lemma_grid_pass_sheltered(read.blocks() as nat, coins, read, write, x, y)
}

} // verus!
