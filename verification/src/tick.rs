//! One tick as a function: the written grid is prepared from the read one,
//! and then every cell of every dirty block is evaluated in turn.

use vstd::prelude::*;
use crate::cells::Cell;
use crate::coins::Draws;
use crate::model::Grid;
use crate::rules::step;

verus! {

/// The coins of a tick: for each place, those of the cell that is evaluated
/// there.
pub type Coins = Map<(int, int), Draws>;

/// The written grid as a tick first makes it: where the read grid has a
/// dirty block, `Air`; where it has a clean block, that block's cells; and
/// no block marked.
pub open spec fn prepared(read: Grid, write: Grid) -> Grid {
    Grid {
        size: write.size,
        cells: Map::new(
            |p: (int, int)| write.in_bounds(p.0, p.1),
            |p: (int, int)|
                if !read.in_bounds(p.0, p.1) {
                    write.cells[p]
                } else if read.dirty[(p.0 / 16, p.1 / 16)] {
                    Cell::Air
                } else {
                    read.cells[p]
                },
        ),
        dirty: Map::new(|b: (int, int)| write.has_block(b.0, b.1), |b: (int, int)| false),
    }
}

/// The place of cell `k` of the block at `(bx, by)`, counting row by row.
pub open spec fn cell_of(bx: int, by: int, k: int) -> (int, int) {
    (16 * bx + k % 16, 16 * by + k / 16)
}

/// The first `k` cells of the block at `(bx, by)` evaluated in turn, each
/// with the coins of its place.
pub open spec fn block_pass(bx: int, by: int, k: nat, coins: Coins, read: Grid, write: Grid) -> Grid
    decreases k,
{
    if k == 0 {
        write
    } else {
        let p = cell_of(bx, by, k - 1);
        step(
            read.read(p.0, p.1),
            p.0,
            p.1,
            coins[p],
            read,
            block_pass(bx, by, (k - 1) as nat, coins, read, write),
        )
    }
}

/// The first `j` blocks of column `bx` in turn: a dirty block has all its
/// cells evaluated, a clean one none.
pub open spec fn column_pass(bx: int, j: nat, coins: Coins, read: Grid, write: Grid) -> Grid
    decreases j,
{
    if j == 0 {
        write
    } else {
        let before = column_pass(bx, (j - 1) as nat, coins, read, write);
        if read.is_dirty(bx, j - 1) {
            block_pass(bx, j - 1, 256, coins, read, before)
        } else {
            before
        }
    }
}

/// The first `i` columns of blocks in turn.
pub open spec fn grid_pass(i: nat, coins: Coins, read: Grid, write: Grid) -> Grid
    decreases i,
{
    if i == 0 {
        write
    } else {
        column_pass(
            i - 1,
            read.blocks() as nat,
            coins,
            read,
            grid_pass((i - 1) as nat, coins, read, write),
        )
    }
}

/// Every cell of every dirty block of `read` evaluated once, in the order
/// of the blocks and, within a block, row by row.
pub open spec fn rules_pass(coins: Coins, read: Grid, write: Grid) -> Grid {
    grid_pass(read.blocks() as nat, coins, read, write)
}

/// A tick in which nothing is spawned: the written grid is prepared, and
/// the cells are evaluated.
pub open spec fn tick(coins: Coins, read: Grid, write: Grid) -> Grid {
    rules_pass(coins, read, prepared(read, write))
}

/// The two grids after as many ticks as `coins` lists, each with its coins
/// and with nothing spawned: first the grid that the last tick built, then
/// the grid that it read. Without a tick, the grids as they are.
pub open spec fn after_ticks(coins: Seq<Coins>, read: Grid, write: Grid) -> (Grid, Grid)
    decreases coins.len(),
{
    if coins.len() == 0 {
        (read, write)
    } else {
        let before = after_ticks(coins.drop_last(), read, write);
        (tick(coins.last(), before.0, before.1), before.0)
    }
}

/// The cells of a block depend on the coins of that block's places alone.
proof fn lemma_block_pass_coins(bx: int, by: int, k: nat, c1: Coins, c2: Coins, read: Grid, write: Grid)
    requires
        k <= 256,
        forall|j: int| 0 <= j < k ==> c1[#[trigger] cell_of(bx, by, j)] == c2[cell_of(bx, by, j)],
    ensures
        block_pass(bx, by, k, c1, read, write) == block_pass(bx, by, k, c2, read, write),
    decreases k,
{
    if k > 0 {
        lemma_block_pass_coins(bx, by, (k - 1) as nat, c1, c2, read, write);
    }
}

/// The first `j` blocks of a column depend on the coins of their places
/// alone.
proof fn lemma_column_pass_coins(bx: int, j: nat, c1: Coins, c2: Coins, read: Grid, write: Grid)
    requires
        forall|p: (int, int)| p.0 / 16 == bx && 0 <= p.1 < 16 * j ==> #[trigger] c1[p] == c2[p],
    ensures
        column_pass(bx, j, c1, read, write) == column_pass(bx, j, c2, read, write),
    decreases j,
{
    if j > 0 {
        lemma_column_pass_coins(bx, (j - 1) as nat, c1, c2, read, write);
        let before = column_pass(bx, (j - 1) as nat, c1, read, write);
        assert forall|k: int| 0 <= k < 256 implies c1[#[trigger] cell_of(bx, j - 1, k)] == c2[cell_of(
            bx,
            j - 1,
            k,
        )] by {}
        lemma_block_pass_coins(bx, j - 1, 256, c1, c2, read, before);
    }
}

/// The first `i` columns depend on the coins of their places alone.
proof fn lemma_grid_pass_coins(i: nat, c1: Coins, c2: Coins, read: Grid, write: Grid)
    requires
        forall|p: (int, int)| 0 <= p.0 < 16 * i && 0 <= p.1 ==> #[trigger] c1[p] == c2[p],
    ensures
        grid_pass(i, c1, read, write) == grid_pass(i, c2, read, write),
    decreases i,
{
    if i > 0 {
        lemma_grid_pass_coins((i - 1) as nat, c1, c2, read, write);
        lemma_column_pass_coins(
            i - 1,
            read.blocks() as nat,
            c1,
            c2,
            read,
            grid_pass((i - 1) as nat, c1, read, write),
        );
    }
}

/// Coins put at the place of cell `k` of a block change nothing of what
/// was evaluated before that cell, and decide that cell's evaluation.
pub proof fn lemma_next_cell(
    bx: int,
    by: int,
    k: nat,
    coins: Coins,
    d: Draws,
    read: Grid,
    start: Grid,
    column_start: Grid,
    block_start: Grid,
)
    requires
        0 <= bx,
        0 <= by,
        k < 256,
    ensures
        ({
            let p = cell_of(bx, by, k as int);
            let next = coins.insert(p, d);
            &&& grid_pass(bx as nat, next, read, start) == grid_pass(bx as nat, coins, read, start)
            &&& column_pass(bx, by as nat, next, read, column_start) == column_pass(
                bx,
                by as nat,
                coins,
                read,
                column_start,
            )
            &&& block_pass(bx, by, k + 1, next, read, block_start) == step(
                read.read(p.0, p.1),
                p.0,
                p.1,
                d,
                read,
                block_pass(bx, by, k, coins, read, block_start),
            )
        }),
{
    let p = cell_of(bx, by, k as int);
    let next = coins.insert(p, d);
    lemma_grid_pass_coins(bx as nat, coins, next, read, start);
    lemma_column_pass_coins(bx, by as nat, coins, next, read, column_start);
    assert forall|j: int| 0 <= j < k implies coins[#[trigger] cell_of(bx, by, j)] == next[cell_of(
        bx,
        by,
        j,
    )] by {
        assert(cell_of(bx, by, j) != p);
    }
    lemma_block_pass_coins(bx, by, k, coins, next, read, block_start);
}

} // verus!
