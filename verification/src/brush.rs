//! What stamping through the round brush comes to, place by place.

use vstd::prelude::*;
use crate::cells::{Cell, brush, brush_row, brush_rows, in_brush, stamped};
use crate::frame::lemma_write;
use crate::model::Grid;

verus! {

/// Whether one of `offsets`, added to `(x, y)`, gives `(qx, qy)`.
pub open spec fn hits(offsets: Seq<(i32, i32)>, x: int, y: int, qx: int, qy: int) -> bool {
    exists|k: int|
        0 <= k < offsets.len() && x + (#[trigger] offsets[k]).0 == qx && y + offsets[k].1 == qy
}

/// Whether one of `offsets`, added to `(x, y)`, gives a place of `g` in the
/// block at `(bx, by)`.
pub open spec fn hits_block(g: Grid, offsets: Seq<(i32, i32)>, x: int, y: int, bx: int, by: int) -> bool {
    exists|k: int|
        0 <= k < offsets.len() && g.in_bounds(x + (#[trigger] offsets[k]).0, y + offsets[k].1) && (x
            + offsets[k].0) / 16 == bx && (y + offsets[k].1) / 16 == by
}

/// Stamping puts the material at every place of the grid that an offset
/// gives, marks the blocks of those places, and leaves everything else as
/// it was.
pub proof fn lemma_stamped(g: Grid, cell: Cell, x: int, y: int, offsets: Seq<(i32, i32)>)
    requires
        g.wf(),
    ensures
        stamped(g, cell, x, y, offsets).wf(),
        stamped(g, cell, x, y, offsets).size == g.size,
        forall|qx: int, qy: int|
            #[trigger] stamped(g, cell, x, y, offsets).read(qx, qy) == if g.in_bounds(qx, qy)
                && hits(offsets, x, y, qx, qy) {
                cell
            } else {
                g.read(qx, qy)
            },
        forall|bx: int, by: int|
            #[trigger] stamped(g, cell, x, y, offsets).is_dirty(bx, by) == (g.is_dirty(bx, by)
                || hits_block(g, offsets, x, y, bx, by)),
    decreases offsets.len(),
{
    if offsets.len() > 0 {
        let rest = offsets.drop_last();
        let o = offsets.last();
        let before = stamped(g, cell, x, y, rest);
        let after = stamped(g, cell, x, y, offsets);
        lemma_stamped(g, cell, x, y, rest);
        lemma_write(before, cell, x + o.0, y + o.1, true);
        let last = offsets.len() - 1;
        assert forall|qx: int, qy: int| #[trigger]
            after.read(qx, qy) == if g.in_bounds(qx, qy) && hits(offsets, x, y, qx, qy) {
                cell
            } else {
                g.read(qx, qy)
            } by {
            if hits(rest, x, y, qx, qy) {
                let k = choose|k: int|
                    0 <= k < rest.len() && x + (#[trigger] rest[k]).0 == qx && y + rest[k].1 == qy;
            }
            if x + o.0 == qx && y + o.1 == qy {
                assert(offsets[last] == o);
            }
            if hits(offsets, x, y, qx, qy) {
                let k = choose|k: int|
                    0 <= k < offsets.len() && x + (#[trigger] offsets[k]).0 == qx && y
                        + offsets[k].1 == qy;
                if k < last {
                    assert(rest[k] == offsets[k]);
                }
            }
        }
        assert forall|bx: int, by: int| #[trigger]
            after.is_dirty(bx, by) == (g.is_dirty(bx, by) || hits_block(
                g,
                offsets,
                x,
                y,
                bx,
                by,
            )) by {
            if hits_block(g, rest, x, y, bx, by) {
                let k = choose|k: int|
                    0 <= k < rest.len() && g.in_bounds(x + (#[trigger] rest[k]).0, y + rest[k].1)
                        && (x + rest[k].0) / 16 == bx && (y + rest[k].1) / 16 == by;
            }
            if g.in_bounds(x + o.0, y + o.1) && (x + o.0) / 16 == bx && (y + o.1) / 16 == by {
                assert(offsets[last] == o);
            }
            if hits_block(g, offsets, x, y, bx, by) {
                let k = choose|k: int|
                    0 <= k < offsets.len() && g.in_bounds(
                        x + (#[trigger] offsets[k]).0,
                        y + offsets[k].1,
                    ) && (x + offsets[k].0) / 16 == bx && (y + offsets[k].1) / 16 == by;
                if k < last {
                    assert(rest[k] == offsets[k]);
                }
            }
        }
    }
}

/// The first `n` rows of the brush hold the offsets that the brush covers
/// in those rows, and no others.
proof fn lemma_brush_rows(n: nat, o: (i32, i32))
    requires
        n <= 9,
    ensures
        brush_rows(n).contains(o) <==> in_brush(o.0 as int, o.1 as int) && o.1 < n,
    decreases n,
{
    if n > 0 {
        lemma_brush_rows((n - 1) as nat, o);
        let above = brush_rows((n - 1) as nat);
        let row = brush_row(n - 1);
        if above.contains(o) {
            let k = choose|k: int| 0 <= k < above.len() && above[k] == o;
            assert((above + row)[k] == o);
        }
        if in_brush(o.0 as int, o.1 as int) && o.1 == n - 1 {
            assert((above + row)[above.len() + o.0] == o);
        }
        if (above + row).contains(o) {
            let k = choose|k: int| 0 <= k < (above + row).len() && (above + row)[k] == o;
            if k < above.len() {
                assert(above[k] == o);
            } else {
                assert(row[k - above.len()] == o);
            }
        }
    }
}

/// The brush holds exactly the offsets that it covers.
pub proof fn lemma_brush(o: (i32, i32))
    ensures
        brush().contains(o) <==> in_brush(o.0 as int, o.1 as int),
{
    lemma_brush_rows(9, o);
}

/// Stamping through the brush at `(x, y)` puts the material at every place
/// of the grid that the brush covers, and leaves every other place as it
/// was.
pub proof fn lemma_brush_stamp(g: Grid, cell: Cell, x: int, y: int, qx: int, qy: int)
    requires
        g.wf(),
    ensures
        stamped(g, cell, x, y, brush()).read(qx, qy) == if g.in_bounds(qx, qy) && in_brush(
            qx - x,
            qy - y,
        ) {
            cell
        } else {
            g.read(qx, qy)
        },
{
    lemma_stamped(g, cell, x, y, brush());
    if in_brush(qx - x, qy - y) {
        let o = ((qx - x) as i32, (qy - y) as i32);
        lemma_brush(o);
        let k = choose|k: int| 0 <= k < brush().len() && brush()[k] == o;
    }
    if hits(brush(), x, y, qx, qy) {
        let k = choose|k: int|
            0 <= k < brush().len() && x + (#[trigger] brush()[k]).0 == qx && y + brush()[k].1 == qy;
        lemma_brush(brush()[k]);
    }
}

} // verus!
