//! The grid as it is stored: square blocks of cells, each with a dirty flag.

use vstd::prelude::*;
use crate::cells::{Cell, Spawner, update_cell};
use crate::coins::{CoinSource, Draws};
use crate::model::{Grid, REGION_SIZE, blocks_per_side};
use crate::rules::step;
use crate::tick::{
    Coins, block_pass, cell_of, column_pass, grid_pass, lemma_next_cell, prepared, rules_pass,
};

verus! {

/// A square tile of `REGION_SIZE` by `REGION_SIZE` cells and the flag that
/// says whether the tile has to be evaluated in the coming tick.
pub struct CellBlock {
    /// The cells, row by row.
    pub cells: [Cell; 256],
    /// Whether the tile has been touched since it was last evaluated.
    pub dirty: bool,
}

impl CellBlock {
    /// The cell at local coordinate `(ix, iy)`; outside the block, `Air`.
    pub open spec fn cell(&self, ix: int, iy: int) -> Cell {
        if 0 <= ix < 16 && 0 <= iy < 16 {
            self.cells@[ix + iy * 16]
        } else {
            Cell::Air
        }
    }

    /// Whether every cell of the block is `Air`.
    pub open spec fn is_blank(&self) -> bool {
        forall|ix: int, iy: int| #[trigger] self.cell(ix, iy) == Cell::Air
    }

    /// A block of `Air`, marked dirty.
    pub fn new() -> (b: Self)
        ensures
            b.dirty,
            b.is_blank(),
    {
        CellBlock { cells: [Cell::Air; 256], dirty: true }
    }

    /// Puts `cell` at local coordinate `(x, y)`; outside the block nothing
    /// changes. The dirty flag stays as it is.
    pub fn set_cell(&mut self, cell: Cell, x: i32, y: i32)
        ensures
            final(self).dirty == old(self).dirty,
            forall|ix: int, iy: int| #[trigger]
                final(self).cell(ix, iy) == if ix == x && iy == y && 0 <= x < 16 && 0 <= y < 16 {
                    cell
                } else {
                    old(self).cell(ix, iy)
                },
    {
        if 0 <= x && x < REGION_SIZE && 0 <= y && y < REGION_SIZE {
            let i: usize = (x + y * REGION_SIZE) as usize;
            self.cells[i] = cell;
        }
    }

    /// The cell at local coordinate `(x, y)`; outside the block, `Air`.
    pub fn get_cell(&self, x: i32, y: i32) -> (c: &Cell)
        ensures
            *c == self.cell(x as int, y as int),
    {
        if 0 <= x && x < REGION_SIZE && 0 <= y && y < REGION_SIZE {
            let i: usize = (x + y * REGION_SIZE) as usize;
            &self.cells[i]
        } else {
            &Cell::Air
        }
    }

    /// Empties the block. The dirty flag stays as it is.
    pub fn clear(&mut self)
        ensures
            final(self).dirty == old(self).dirty,
            final(self).is_blank(),
    {
        self.cells = [Cell::Air; 256];
    }
}

/// A grid of cells, stored as a square table of blocks. Block `(bx, by)`
/// covers the cells from `(16 * bx, 16 * by)` to `(16 * bx + 15, 16 * by + 15)`.
pub struct GameState {
    /// The extent that the grid was made with, in cells.
    pub size: i32,
    /// The blocks: `blocks[bx][by]` is the block at block coordinate `(bx, by)`.
    pub blocks: Vec<Vec<CellBlock>>,
}

/// The grid `g` with the cells and the flag of the block at `(bx, by)`
/// replaced by those of `b`.
pub open spec fn with_block(g: Grid, bx: int, by: int, b: CellBlock) -> Grid {
    Grid {
        size: g.size,
        cells: Map::new(
            |p: (int, int)| g.in_bounds(p.0, p.1),
            |p: (int, int)|
                if p.0 / 16 == bx && p.1 / 16 == by {
                    b.cell(p.0 % 16, p.1 % 16)
                } else {
                    g.cells[p]
                },
        ),
        dirty: Map::new(
            |q: (int, int)| g.has_block(q.0, q.1),
            |q: (int, int)| if q == (bx, by) { b.dirty } else { g.dirty[q] },
        ),
    }
}

impl View for GameState {
    type V = Grid;

    closed spec fn view(&self) -> Grid {
        Grid {
            size: self.size as int,
            cells: Map::new(
                |p: (int, int)|
                    0 <= p.0 < 16 * blocks_per_side(self.size as int) && 0 <= p.1 < 16
                        * blocks_per_side(self.size as int),
                |p: (int, int)| self.blocks@[p.0 / 16]@[p.1 / 16].cell(p.0 % 16, p.1 % 16),
            ),
            dirty: Map::new(
                |b: (int, int)|
                    0 <= b.0 < blocks_per_side(self.size as int) && 0 <= b.1 < blocks_per_side(
                        self.size as int,
                    ),
                |b: (int, int)| self.blocks@[b.0]@[b.1].dirty,
            ),
        }
    }
}

impl GameState {
    /// The table of blocks is square and as large as `size` asks.
    pub closed spec fn is_square(&self) -> bool {
        &&& self.blocks@.len() == blocks_per_side(self.size as int)
        &&& forall|i: int|
            0 <= i < self.blocks@.len() ==> (#[trigger] self.blocks@[i])@.len() == blocks_per_side(
                self.size as int,
            )
    }

    /// A block stands at every block coordinate of the grid, and the view
    /// has the grid's extent.
    pub open spec fn wf(&self) -> bool {
        self.is_square() && self@.size == self.size
    }

    /// The view is a well-formed model: each of its places holds one cell.
    pub proof fn lemma_view(&self)
        ensures
            self@.wf(),
    {
    }

    /// An empty grid of extent `size`: every cell `Air`, every block dirty.
    /// Blocks cover the first `16 * (size / 16)` cells of each axis.
    pub fn new(size: i32) -> (s: Self)
        ensures
            s.wf(),
            s.size == size,
            s@ == Grid::fresh(size as int),
    {
        let n: i32 = if size <= 0 { 0 } else { size / REGION_SIZE };
        let mut blocks: Vec<Vec<CellBlock>> = Vec::new();
        let mut x: i32 = 0;
        while x < n
            invariant
                0 <= x <= n,
                n == blocks_per_side(size as int),
                blocks@.len() == x,
                forall|i: int| 0 <= i < x ==> (#[trigger] blocks@[i])@.len() == n,
                forall|i: int, j: int|
                    0 <= i < x && 0 <= j < n ==> {
                        &&& (#[trigger] blocks@[i]@[j]).dirty
                        &&& blocks@[i]@[j].is_blank()
                    },
            decreases n - x,
        {
            let mut column: Vec<CellBlock> = Vec::new();
            let mut y: i32 = 0;
            while y < n
                invariant
                    0 <= y <= n,
                    column@.len() == y,
                    forall|j: int|
                        0 <= j < y ==> {
                            &&& (#[trigger] column@[j]).dirty
                            &&& column@[j].is_blank()
                        },
                decreases n - y,
            {
                column.push(CellBlock::new());
                y = y + 1;
            }
            blocks.push(column);
            x = x + 1;
        }
        let s = GameState { size, blocks };
        s
    }

    /// The block at block coordinate `(bx, by)`, to be changed in place;
    /// `None` where the grid has no such block.
    pub fn get_block_mut(&mut self, bx: i32, by: i32) -> (res: Option<&mut CellBlock>)
        requires
            old(self).wf(),
        ensures
            final(self).wf(),
            final(self).size == old(self).size,
            res is Some <==> old(self)@.has_block(bx as int, by as int),
            match res {
                Some(b) => {
                    &&& *b == old(self).blocks@[bx as int]@[by as int]
                    &&& b.dirty == old(self)@.is_dirty(bx as int, by as int)
                    &&& forall|ix: int, iy: int|
                        0 <= ix < 16 && 0 <= iy < 16 ==> #[trigger] b.cell(ix, iy) == old(
                            self,
                        )@.read(16 * bx + ix, 16 * by + iy)
                    &&& final(self)@ == with_block(old(self)@, bx as int, by as int, *final(b))
                },
                None => final(self)@ == old(self)@,
            },
    {
        if bx < 0 || by < 0 {
            return None;
        }
        let i: usize = bx as usize;
        let j: usize = by as usize;
        if i >= self.blocks.len() || j >= self.blocks.len() {
            return None;
        }
        Some(&mut self.blocks[i][j])
    }

    /// Marks the block that holds `(x, y)` dirty, without writing a cell.
    /// Off the grid nothing changes.
    pub fn mark_block_dirty(&mut self, x: i32, y: i32)
        requires
            old(self).wf(),
        ensures
            final(self).wf(),
            final(self).size == old(self).size,
            final(self)@ == old(self)@.mark(x as int, y as int),
    {
        if x < 0 || y < 0 {
            return ;
        }
        match self.get_block_mut(x / REGION_SIZE, y / REGION_SIZE) {
            Some(b) => {
                b.dirty = true;
            },
            None => {},
        }
    }

    /// Replaces the block at block coordinate `(bx, by)` by an empty one,
    /// marked dirty. The grid must have that block.
    pub fn reset_block(&mut self, bx: i32, by: i32)
        requires
            old(self).wf(),
            old(self)@.has_block(bx as int, by as int),
        ensures
            final(self).wf(),
            final(self).size == old(self).size,
            final(self)@ == old(self)@.reset(bx as int, by as int),
    {
        match self.get_block_mut(bx, by) {
            Some(b) => {
                *b = CellBlock::new();
            },
            None => {},
        }
    }

    /// Whether `(x, y)` lies on the grid and holds `Air`. Off the grid
    /// nothing is empty, so that no cell falls or flows over the edge.
    pub fn is_empty(&self, x: i32, y: i32) -> (e: bool)
        requires
            self.wf(),
        ensures
            e == self@.is_empty(x as int, y as int),
    {
        if x < 0 || y < 0 {
            return false;
        }
        let bx: usize = (x / REGION_SIZE) as usize;
        let by: usize = (y / REGION_SIZE) as usize;
        if bx >= self.blocks.len() || by >= self.blocks.len() {
            return false;
        }
        match self.blocks[bx][by].get_cell(x % REGION_SIZE, y % REGION_SIZE) {
            Cell::Air => true,
            _ => false,
        }
    }

    /// The cell at `(x, y)`; off the grid, `Air`.
    pub fn read_cell(&self, x: i32, y: i32) -> (c: &Cell)
        requires
            self.wf(),
        ensures
            *c == self@.read(x as int, y as int),
    {
        if x < 0 || y < 0 {
            return &Cell::Air;
        }
        let bx: usize = (x / REGION_SIZE) as usize;
        let by: usize = (y / REGION_SIZE) as usize;
        if bx >= self.blocks.len() || by >= self.blocks.len() {
            return &Cell::Air;
        }
        self.blocks[bx][by].get_cell(x % REGION_SIZE, y % REGION_SIZE)
    }

    /// Puts `cell` at `(x, y)` and, if `dirty`, marks the block that holds it
    /// dirty. Off the grid nothing changes.
    pub fn write_cell(&mut self, cell: Cell, x: i32, y: i32, dirty: bool)
        requires
            old(self).wf(),
        ensures
            final(self).wf(),
            final(self).size == old(self).size,
            final(self)@ == old(self)@.write(cell, x as int, y as int, dirty),
    {
        if x < 0 || y < 0 {
            return ;
        }
        match self.get_block_mut(x / REGION_SIZE, y / REGION_SIZE) {
            Some(b) => {
                if dirty {
                    b.dirty = true;
                }
                b.set_cell(cell, x % REGION_SIZE, y % REGION_SIZE);
            },
            None => {},
        }
    }

    /// Empties every block and marks it dirty: the grid is as `new` made it.
    pub fn clear(&mut self)
        requires
            old(self).wf(),
        ensures
            final(self).wf(),
            final(self).size == old(self).size,
            final(self)@ == Grid::fresh(old(self).size as int),
    {
        let n: usize = self.blocks.len();
        let mut bx: usize = 0;
        while bx < n
            invariant
                self.wf(),
                self.size == old(self).size,
                n == blocks_per_side(self.size as int),
                0 <= bx <= n,
                forall|p: (int, int)|
                    self@.in_bounds(p.0, p.1) && p.0 / 16 < bx ==> #[trigger] self@.cells[p]
                        == Cell::Air,
                forall|b: (int, int)|
                    self@.has_block(b.0, b.1) && b.0 < bx ==> #[trigger] self@.dirty[b],
            decreases n - bx,
        {
            let mut by: usize = 0;
            while by < n
                invariant
                    self.wf(),
                    self.size == old(self).size,
                    n == blocks_per_side(self.size as int),
                    0 <= bx < n,
                    0 <= by <= n,
                    forall|p: (int, int)|
                        self@.in_bounds(p.0, p.1) && (p.0 / 16 < bx || (p.0 / 16 == bx && p.1 / 16
                            < by)) ==> #[trigger] self@.cells[p] == Cell::Air,
                    forall|b: (int, int)|
                        self@.has_block(b.0, b.1) && (b.0 < bx || (b.0 == bx && b.1 < by))
                            ==> #[trigger] self@.dirty[b],
                decreases n - by,
            {
                self.reset_block(bx as i32, by as i32);
                by = by + 1;
            }
            bx = bx + 1;
        }
    }
}

/// The first part of a tick: every block that is clean in `read_state` is
/// copied into `write_state`, every block that is dirty there is emptied in
/// `write_state`, and no block of `write_state` stays marked.
pub fn prepare(read_state: &GameState, write_state: &mut GameState)
    requires
        read_state.wf(),
        old(write_state).wf(),
        read_state@.blocks() <= old(write_state)@.blocks(),
    ensures
        final(write_state).wf(),
        final(write_state).size == old(write_state).size,
        final(write_state)@ == prepared(read_state@, old(write_state)@),
{
    let n: usize = read_state.blocks.len();
    let mut bx: usize = 0;
    while bx < n
        invariant
            read_state.wf(),
            write_state.wf(),
            write_state.size == old(write_state).size,
            n == read_state@.blocks(),
            n <= write_state@.blocks(),
            0 <= bx <= n,
            forall|p: (int, int)|
                write_state@.in_bounds(p.0, p.1) ==> #[trigger] write_state@.cells[p] == if p.0
                    / 16 < bx && read_state@.in_bounds(p.0, p.1) {
                    prepared(read_state@, old(write_state)@).cells[p]
                } else {
                    old(write_state)@.cells[p]
                },
        decreases n - bx,
    {
        let mut by: usize = 0;
        while by < n
            invariant
                read_state.wf(),
                write_state.wf(),
                write_state.size == old(write_state).size,
                n == read_state@.blocks(),
                n <= write_state@.blocks(),
                0 <= bx < n,
                0 <= by <= n,
                forall|p: (int, int)|
                    write_state@.in_bounds(p.0, p.1) ==> #[trigger] write_state@.cells[p] == if (p.0
                        / 16 < bx || (p.0 / 16 == bx && p.1 / 16 < by)) && read_state@.in_bounds(
                        p.0,
                        p.1,
                    ) {
                        prepared(read_state@, old(write_state)@).cells[p]
                    } else {
                        old(write_state)@.cells[p]
                    },
            decreases n - by,
        {
            let source = &read_state.blocks[bx][by];
            if source.dirty {
                write_state.reset_block(bx as i32, by as i32);
            } else {
                match write_state.get_block_mut(bx as i32, by as i32) {
                    Some(b) => {
                        b.cells = source.cells;
                    },
                    None => {},
                }
            }
            by = by + 1;
        }
        bx = bx + 1;
    }
    let m: usize = write_state.blocks.len();
    let ghost copied = write_state@;
    let mut bx: usize = 0;
    while bx < m
        invariant
            write_state.wf(),
            write_state.size == old(write_state).size,
            m == write_state@.blocks(),
            0 <= bx <= m,
            write_state@.cells == copied.cells,
            forall|b: (int, int)|
                write_state@.has_block(b.0, b.1) && b.0 < bx ==> !#[trigger] write_state@.dirty[b],
        decreases m - bx,
    {
        let mut by: usize = 0;
        while by < m
            invariant
                write_state.wf(),
                write_state.size == old(write_state).size,
                m == write_state@.blocks(),
                0 <= bx < m,
                0 <= by <= m,
                write_state@.cells == copied.cells,
                forall|b: (int, int)|
                    write_state@.has_block(b.0, b.1) && (b.0 < bx || (b.0 == bx && b.1 < by))
                        ==> !#[trigger] write_state@.dirty[b],
            decreases m - by,
        {
            match write_state.get_block_mut(bx as i32, by as i32) {
                Some(b) => {
                    b.dirty = false;
                },
                None => {},
            }
            by = by + 1;
        }
        bx = bx + 1;
    }
}

/// The last part of a tick: every cell of every block that is dirty in
/// `read_state` is evaluated once, with coins from `rng`, in the order of the
/// blocks and, within a block, row by row.
pub fn run_rules<R: CoinSource>(read_state: &GameState, write_state: &mut GameState, rng: &mut R)
    requires
        read_state.wf(),
        old(write_state).wf(),
    ensures
        final(write_state).wf(),
        final(write_state).size == old(write_state).size,
        exists|coins: Coins|
            final(write_state)@ == #[trigger] rules_pass(coins, read_state@, old(write_state)@),
{
    let n: usize = read_state.blocks.len();
    let ghost read = read_state@;
    let ghost start = write_state@;
    let ghost mut coins: Coins = Map::empty();
    let mut bx: usize = 0;
    while bx < n
        invariant
            read_state.wf(),
            write_state.wf(),
            write_state.size == old(write_state).size,
            read == read_state@,
            n == read.blocks(),
            0 <= bx <= n,
            write_state@ == grid_pass(bx as nat, coins, read, start),
        decreases n - bx,
    {
        let ghost column_start = write_state@;
        let mut by: usize = 0;
        while by < n
            invariant
                read_state.wf(),
                write_state.wf(),
                write_state.size == old(write_state).size,
                read == read_state@,
                n == read.blocks(),
                0 <= bx < n,
                0 <= by <= n,
                column_start == grid_pass(bx as nat, coins, read, start),
                write_state@ == column_pass(bx as int, by as nat, coins, read, column_start),
            decreases n - by,
        {
            if read_state.blocks[bx][by].dirty {
                let ghost block_start = write_state@;
                let mut k: usize = 0;
                while k < 256
                    invariant
                        read_state.wf(),
                        write_state.wf(),
                        write_state.size == old(write_state).size,
                        read == read_state@,
                        n == read.blocks(),
                        0 <= bx < n,
                        0 <= by < n,
                        0 <= k <= 256,
                        column_start == grid_pass(bx as nat, coins, read, start),
                        block_start == column_pass(bx as int, by as nat, coins, read, column_start),
                        write_state@ == block_pass(
                            bx as int,
                            by as int,
                            k as nat,
                            coins,
                            read,
                            block_start,
                        ),
                    decreases 256 - k,
                {
                    let x: i32 = (bx * 16 + k % 16) as i32;
                    let y: i32 = (by * 16 + k / 16) as i32;
                    let cell = *read_state.read_cell(x, y);
                    let ghost before = write_state@;
                    let ghost earlier = coins;
                    update_cell(cell, x, y, read_state, write_state, rng);
                    proof {
                        let d = choose|d: Draws|
                            write_state@ == #[trigger] step(cell, x as int, y as int, d, read, before);
                        lemma_next_cell(
                            bx as int,
                            by as int,
                            k as nat,
                            earlier,
                            d,
                            read,
                            start,
                            column_start,
                            block_start,
                        );
                        coins = earlier.insert((x as int, y as int), d);
                    }
                    k = k + 1;
                }
            }
            by = by + 1;
        }
        bx = bx + 1;
    }
    assert(write_state@ == rules_pass(coins, read_state@, start));
}

/// One tick. The written grid is prepared from the read one: clean blocks
/// are copied, dirty blocks emptied, all marks taken off. Then `spawner`
/// puts its cells in. Then every cell of every dirty block of the read grid
/// is evaluated, with coins from `rng`. The written grid must have a block
/// wherever the read grid has one.
pub fn update<S: Spawner, R: CoinSource>(
    read_state: &GameState,
    write_state: &mut GameState,
    spawner: &mut S,
    rng: &mut R,
)
    requires
        read_state.wf(),
        old(write_state).wf(),
        read_state@.blocks() <= old(write_state)@.blocks(),
    ensures
        final(write_state).wf(),
        final(write_state).size == old(write_state).size,
        exists|spawned: Grid, coins: Coins|
            {
                &&& old(spawner).spawns(prepared(read_state@, old(write_state)@), spawned)
                &&& final(write_state)@ == #[trigger] rules_pass(coins, read_state@, spawned)
            },
{
    prepare(read_state, write_state);
    spawner.spawn(write_state);
    let ghost spawned = write_state@;
    run_rules(read_state, write_state, rng);
    proof {
        let coins = choose|coins: Coins|
            write_state@ == #[trigger] rules_pass(coins, read_state@, spawned);
    }
}

/// One tick, after which the two grids have changed roles: `read_state` is
/// the grid that the tick built, and `write_state` the grid that it read,
/// to be written over by the next tick.
pub fn advance<S: Spawner, R: CoinSource>(
    read_state: &mut GameState,
    write_state: &mut GameState,
    spawner: &mut S,
    rng: &mut R,
)
    requires
        old(read_state).wf(),
        old(write_state).wf(),
        old(read_state)@.blocks() <= old(write_state)@.blocks(),
    ensures
        final(read_state).wf(),
        final(write_state).wf(),
        *final(write_state) == *old(read_state),
        final(read_state).size == old(write_state).size,
        exists|spawned: Grid, coins: Coins|
            {
                &&& old(spawner).spawns(prepared(old(read_state)@, old(write_state)@), spawned)
                &&& final(read_state)@ == #[trigger] rules_pass(coins, old(read_state)@, spawned)
            },
{
    update(read_state, write_state, spawner, rng);
    std::mem::swap(read_state, write_state);
}

} // verus!
