//! Counting the cells of a grid: every place holds one cell, so the cells of
//! a kind and the cells of every other kind together fill the grid.

use vstd::prelude::*;
use vstd::set_lib::*;
use crate::cells::Cell;
use crate::model::Grid;

verus! {

/// The places `(x, y)` with `0 <= x < w` and `0 <= y < h`.
pub open spec fn rect(w: int, h: int) -> Set<(int, int)> {
    Set::new(|p: (int, int)| 0 <= p.0 < w && 0 <= p.1 < h)
}

/// The places of column `x` with `0 <= y < h`.
pub open spec fn column(x: int, h: int) -> Set<(int, int)> {
    Set::new(|p: (int, int)| p.0 == x && 0 <= p.1 < h)
}

/// A column of height `h` has `h` places.
proof fn lemma_column_len(x: int, h: nat)
    ensures
        column(x, h as int).finite(),
        column(x, h as int).len() == h,
    decreases h,
{
    if h == 0 {
        assert(column(x, 0) =~= Set::empty());
    } else {
        lemma_column_len(x, (h - 1) as nat);
        assert(column(x, h as int) =~= column(x, h - 1).insert((x, h - 1)));
    }
}

/// A rectangle `w` wide and `h` high has `w * h` places.
proof fn lemma_rect_len(w: nat, h: nat)
    ensures
        rect(w as int, h as int).finite(),
        rect(w as int, h as int).len() == w * h,
    decreases w,
{
    if w == 0 {
        assert(rect(0, h as int) =~= Set::empty());
    } else {
        lemma_rect_len((w - 1) as nat, h);
        lemma_column_len(w - 1, h);
        let left = rect(w - 1, h as int);
        let last = column(w - 1, h as int);
        assert(rect(w as int, h as int) =~= left + last);
        lemma_set_disjoint_lens(left, last);
        assert(w * h == (w - 1) * h + h) by (nonlinear_arith);
    }
}

impl Grid {
    /// The places whose cell is of the kind that `kind` tells.
    pub open spec fn places_of(self, kind: spec_fn(Cell) -> bool) -> Set<(int, int)> {
        self.cells.dom().filter(|p: (int, int)| kind(self.cells[p]))
    }

    /// How many cells are of the kind that `kind` tells.
    pub open spec fn count(self, kind: spec_fn(Cell) -> bool) -> nat {
        self.places_of(kind).len()
    }

    /// How many places the grid has.
    pub open spec fn area(self) -> nat {
        (self.side() * self.side()) as nat
    }
}

/// The places of a grid are those of a square, `side` by `side`: finitely
/// many, and as many as the area.
pub proof fn lemma_places(g: Grid)
    requires
        g.wf(),
    ensures
        g.cells.dom() == rect(g.side(), g.side()),
        g.cells.dom().finite(),
        g.cells.dom().len() == g.area(),
{
    lemma_rect_len(g.side() as nat, g.side() as nat);
}

/// Whatever the kind, the cells of that kind and the cells of every other
/// kind are as many as the grid has places: no place holds two cells, and
/// none holds none.
pub proof fn lemma_census(g: Grid, kind: spec_fn(Cell) -> bool)
    requires
        g.wf(),
    ensures
        g.count(kind) + g.count(|c: Cell| !kind(c)) == g.area(),
{
    lemma_places(g);
    let other = |c: Cell| !kind(c);
    let a = g.places_of(kind);
    let b = g.places_of(other);
    assert(a + b =~= g.cells.dom());
    g.cells.dom().lemma_len_filter(|p: (int, int)| kind(g.cells[p]));
    g.cells.dom().lemma_len_filter(|p: (int, int)| other(g.cells[p]));
    lemma_set_disjoint_lens(a, b);
}

/// `Air` and everything else together fill the grid.
pub proof fn lemma_air_and_matter(g: Grid)
    requires
        g.wf(),
    ensures
        g.count(|c: Cell| c is Air) + g.count(|c: Cell| !(c is Air)) == g.area(),
{
    let air = |c: Cell| c is Air;
    lemma_census(g, air);
    assert(g.places_of(|c: Cell| !(c is Air)) =~= g.places_of(|c: Cell| !air(c)));
}

} // verus!
