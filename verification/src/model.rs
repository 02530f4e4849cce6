//! The grid as a mathematical value: a total map from the coordinates that
//! blocks cover to cells, and a dirty flag for each block.

use vstd::prelude::*;
use crate::cells::Cell;

verus! {

/// The side of a block, in cells.
pub const REGION_SIZE: i32 = 16;

/// The number of blocks along one side of a grid of extent `size`.
pub open spec fn blocks_per_side(size: int) -> int {
    if size <= 0 {
        0
    } else {
        size / 16
    }
}

/// A grid as contracts see it.
#[verifier::ext_equal]
pub struct Grid {
    /// The extent that the grid was made with.
    pub size: int,
    /// The cell at each covered coordinate.
    pub cells: Map<(int, int), Cell>,
    /// The dirty flag of each block, by block coordinate.
    pub dirty: Map<(int, int), bool>,
}

impl Grid {
    /// Blocks along one side.
    pub open spec fn blocks(self) -> int {
        blocks_per_side(self.size)
    }

    /// Cells along one side that blocks cover.
    pub open spec fn side(self) -> int {
        16 * self.blocks()
    }

    /// Whether `(x, y)` lies on the grid.
    pub open spec fn in_bounds(self, x: int, y: int) -> bool {
        0 <= x < self.side() && 0 <= y < self.side()
    }

    /// Whether the grid has a block at block coordinate `(bx, by)`.
    pub open spec fn has_block(self, bx: int, by: int) -> bool {
        0 <= bx < self.blocks() && 0 <= by < self.blocks()
    }

    /// Every covered coordinate holds exactly one cell and every block one
    /// flag, and nothing else does.
    pub open spec fn wf(self) -> bool {
        &&& forall|p: (int, int)| #[trigger] self.cells.dom().contains(p) <==> self.in_bounds(p.0, p.1)
        &&& forall|b: (int, int)| #[trigger] self.dirty.dom().contains(b) <==> self.has_block(b.0, b.1)
    }

    /// The cell at `(x, y)`; off the grid, `Air`.
    pub open spec fn read(self, x: int, y: int) -> Cell {
        if self.in_bounds(x, y) {
            self.cells[(x, y)]
        } else {
            Cell::Air
        }
    }

    /// Whether `(x, y)` lies on the grid and holds `Air`.
    pub open spec fn is_empty(self, x: int, y: int) -> bool {
        self.in_bounds(x, y) && self.cells[(x, y)] is Air
    }

    /// Whether the block at `(bx, by)` exists and is dirty.
    pub open spec fn is_dirty(self, bx: int, by: int) -> bool {
        self.has_block(bx, by) && self.dirty[(bx, by)]
    }

    /// The grid with the block that holds `(x, y)` marked dirty; off the grid,
    /// the grid itself.
    pub open spec fn mark(self, x: int, y: int) -> Grid {
        if self.in_bounds(x, y) {
            Grid { dirty: self.dirty.insert((x / 16, y / 16), true), ..self }
        } else {
            self
        }
    }

    /// The grid with `cell` at `(x, y)`, its block marked dirty if `dirty`;
    /// off the grid, the grid itself.
    pub open spec fn write(self, cell: Cell, x: int, y: int, dirty: bool) -> Grid {
        if self.in_bounds(x, y) {
            let placed = Grid { cells: self.cells.insert((x, y), cell), ..self };
            if dirty {
                placed.mark(x, y)
            } else {
                placed
            }
        } else {
            self
        }
    }

    /// The grid with the block at `(bx, by)` emptied and marked dirty.
    pub open spec fn reset(self, bx: int, by: int) -> Grid {
        Grid {
            size: self.size,
            cells: Map::new(
                |p: (int, int)| self.in_bounds(p.0, p.1),
                |p: (int, int)| if p.0 / 16 == bx && p.1 / 16 == by { Cell::Air } else { self.cells[p] },
            ),
            dirty: Map::new(
                |b: (int, int)| self.has_block(b.0, b.1),
                |b: (int, int)| if b == (bx, by) { true } else { self.dirty[b] },
            ),
        }
    }

    /// The grid of extent `size` with every cell `Air` and every block dirty.
    pub open spec fn fresh(size: int) -> Grid {
        Grid {
            size: size,
            cells: Map::new(
                |p: (int, int)| 0 <= p.0 < 16 * blocks_per_side(size) && 0 <= p.1 < 16 * blocks_per_side(size),
                |p: (int, int)| Cell::Air,
            ),
            dirty: Map::new(
                |b: (int, int)| 0 <= b.0 < blocks_per_side(size) && 0 <= b.1 < blocks_per_side(size),
                |b: (int, int)| true,
            ),
        }
    }
}

} // verus!
