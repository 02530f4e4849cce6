//! Sums over the places of a grid, taken block by block in the order in
//! which a pass visits them.

use vstd::prelude::*;
use vstd::set_lib::*;
use crate::tick::cell_of;

verus! {

/// A number for every place.
pub type Weights = spec_fn(int, int) -> nat;

/// The sum of `f` over the first `k` places of the block at `(bx, by)`.
pub open spec fn block_sum(f: Weights, bx: int, by: int, k: nat) -> nat
    decreases k,
{
    if k == 0 {
        0
    } else {
        block_sum(f, bx, by, (k - 1) as nat) + f(cell_of(bx, by, k - 1).0, cell_of(bx, by, k - 1).1)
    }
}

/// The sum of `f` over the first `j` blocks of column `bx`.
pub open spec fn column_sum(f: Weights, bx: int, j: nat) -> nat
    decreases j,
{
    if j == 0 {
        0
    } else {
        column_sum(f, bx, (j - 1) as nat) + block_sum(f, bx, j - 1, 256)
    }
}

/// The sum of `f` over the first `i` columns of a grid of `n` by `n`
/// blocks.
pub open spec fn grid_sum(f: Weights, n: nat, i: nat) -> nat
    decreases i,
{
    if i == 0 {
        0
    } else {
        grid_sum(f, n, (i - 1) as nat) + column_sum(f, i - 1, n)
    }
}

/// Whether `(x, y)` is one of the places of the first `i` columns of a grid
/// of `n` by `n` blocks.
pub open spec fn covered(n: nat, i: nat, x: int, y: int) -> bool {
    0 <= x < 16 * i && 0 <= y < 16 * n
}

proof fn lemma_block_sum_le(f: Weights, g: Weights, bx: int, by: int, k: nat)
    requires
        k <= 256,
        forall|x: int, y: int|
            x / 16 == bx && y / 16 == by ==> #[trigger] f(x, y) <= #[trigger] g(x, y),
    ensures
        block_sum(f, bx, by, k) <= block_sum(g, bx, by, k),
    decreases k,
{
    if k > 0 {
        lemma_block_sum_le(f, g, bx, by, (k - 1) as nat);
    }
}

proof fn lemma_column_sum_le(f: Weights, g: Weights, bx: int, j: nat)
    requires
        forall|x: int, y: int|
            x / 16 == bx && 0 <= y < 16 * j ==> #[trigger] f(x, y) <= #[trigger] g(x, y),
    ensures
        column_sum(f, bx, j) <= column_sum(g, bx, j),
    decreases j,
{
    if j > 0 {
        lemma_column_sum_le(f, g, bx, (j - 1) as nat);
        lemma_block_sum_le(f, g, bx, j - 1, 256);
    }
}

/// A sum is no larger than the sum of weights that are nowhere smaller.
pub proof fn lemma_grid_sum_le(f: Weights, g: Weights, n: nat, i: nat)
    requires
        forall|x: int, y: int| covered(n, i, x, y) ==> #[trigger] f(x, y) <= #[trigger] g(x, y),
    ensures
        grid_sum(f, n, i) <= grid_sum(g, n, i),
    decreases i,
{
    if i > 0 {
        lemma_grid_sum_le(f, g, n, (i - 1) as nat);
        assert forall|x: int, y: int| x / 16 == i - 1 && 0 <= y < 16 * n implies #[trigger] f(x, y)
            <= #[trigger] g(x, y) by {
            assert(covered(n, i, x, y));
        }
        lemma_column_sum_le(f, g, i - 1, n);
    }
}

proof fn lemma_block_sum_add(f: Weights, g: Weights, h: Weights, bx: int, by: int, k: nat)
    requires
        k <= 256,
        forall|x: int, y: int|
            x / 16 == bx && y / 16 == by ==> #[trigger] h(x, y) == f(x, y) + g(x, y),
    ensures
        block_sum(h, bx, by, k) == block_sum(f, bx, by, k) + block_sum(g, bx, by, k),
    decreases k,
{
    if k > 0 {
        lemma_block_sum_add(f, g, h, bx, by, (k - 1) as nat);
    }
}

proof fn lemma_column_sum_add(f: Weights, g: Weights, h: Weights, bx: int, j: nat)
    requires
        forall|x: int, y: int|
            x / 16 == bx && 0 <= y < 16 * j ==> #[trigger] h(x, y) == f(x, y) + g(x, y),
    ensures
        column_sum(h, bx, j) == column_sum(f, bx, j) + column_sum(g, bx, j),
    decreases j,
{
    if j > 0 {
        lemma_column_sum_add(f, g, h, bx, (j - 1) as nat);
        lemma_block_sum_add(f, g, h, bx, j - 1, 256);
    }
}

/// The sum of weights that are, place by place, the sums of two others is
/// the sum of their sums.
pub proof fn lemma_grid_sum_add(f: Weights, g: Weights, h: Weights, n: nat, i: nat)
    requires
        forall|x: int, y: int| covered(n, i, x, y) ==> #[trigger] h(x, y) == f(x, y) + g(x, y),
    ensures
        grid_sum(h, n, i) == grid_sum(f, n, i) + grid_sum(g, n, i),
    decreases i,
{
    if i > 0 {
        lemma_grid_sum_add(f, g, h, n, (i - 1) as nat);
        assert forall|x: int, y: int| x / 16 == i - 1 && 0 <= y < 16 * n implies #[trigger] h(x, y)
            == f(x, y) + g(x, y) by {
            assert(covered(n, i, x, y));
        }
        lemma_column_sum_add(f, g, h, i - 1, n);
    }
}

/// The weights that are `v` at `(px, py)` and zero everywhere else.
pub open spec fn spike(px: int, py: int, v: nat) -> Weights {
    |x: int, y: int| if x == px && y == py { v } else { 0nat }
}

proof fn lemma_block_sum_spike(px: int, py: int, v: nat, bx: int, by: int, k: nat)
    requires
        k <= 256,
    ensures
        block_sum(spike(px, py, v), bx, by, k) == if px / 16 == bx && py / 16 == by && px % 16 + 16
            * (py % 16) < k {
            v
        } else {
            0
        },
    decreases k,
{
    if k > 0 {
        lemma_block_sum_spike(px, py, v, bx, by, (k - 1) as nat);
        let p = cell_of(bx, by, k - 1);
        if p == (px, py) {
            assert(px / 16 == bx && py / 16 == by && px % 16 + 16 * (py % 16) == k - 1);
        } else {
            assert(!(px / 16 == bx && py / 16 == by && px % 16 + 16 * (py % 16) == k - 1));
        }
    }
}

proof fn lemma_column_sum_spike(px: int, py: int, v: nat, bx: int, j: nat)
    ensures
        column_sum(spike(px, py, v), bx, j) == if px / 16 == bx && 0 <= py < 16 * j {
            v
        } else {
            0
        },
    decreases j,
{
    if j > 0 {
        lemma_column_sum_spike(px, py, v, bx, (j - 1) as nat);
        lemma_block_sum_spike(px, py, v, bx, j - 1, 256);
    }
}

/// The sum of a spike is its height if its place is covered, and zero if
/// not.
pub proof fn lemma_grid_sum_spike(px: int, py: int, v: nat, n: nat, i: nat)
    ensures
        grid_sum(spike(px, py, v), n, i) == if covered(n, i, px, py) {
            v
        } else {
            0
        },
    decreases i,
{
    if i > 0 {
        lemma_grid_sum_spike(px, py, v, n, (i - 1) as nat);
        lemma_column_sum_spike(px, py, v, i - 1, n);
    }
}

/// Two weights that differ at one place only have sums that differ by as
/// much as they differ there, if the place is covered, and equal sums if
/// not.
pub proof fn lemma_grid_sum_update(f: Weights, g: Weights, px: int, py: int, n: nat, i: nat)
    requires
        forall|x: int, y: int| (x, y) != (px, py) ==> #[trigger] g(x, y) == #[trigger] f(x, y),
    ensures
        covered(n, i, px, py) ==> grid_sum(g, n, i) + f(px, py) == grid_sum(f, n, i) + g(px, py),
        !covered(n, i, px, py) ==> grid_sum(g, n, i) == grid_sum(f, n, i),
{
    // Both are a common part plus a spike at the place.
    let common: Weights = |x: int, y: int| if x == px && y == py { 0nat } else { f(x, y) };
    let sf = spike(px, py, f(px, py));
    let sg = spike(px, py, g(px, py));
    lemma_grid_sum_add(common, sf, f, n, i);
    lemma_grid_sum_add(common, sg, g, n, i);
    lemma_grid_sum_spike(px, py, f(px, py), n, i);
    lemma_grid_sum_spike(px, py, g(px, py), n, i);
}

/// One for every place that `marked` tells, zero for every other.
pub open spec fn tally(marked: spec_fn(int, int) -> bool) -> Weights {
    |x: int, y: int| if marked(x, y) { 1nat } else { 0nat }
}

/// The places that `marked` tells among the first `k` of the block at
/// `(bx, by)`.
pub open spec fn marked_in_block(marked: spec_fn(int, int) -> bool, bx: int, by: int, k: nat) -> Set<
    (int, int),
> {
    Set::new(
        |p: (int, int)|
            p.0 / 16 == bx && p.1 / 16 == by && p.0 % 16 + 16 * (p.1 % 16) < k && marked(p.0, p.1),
    )
}

/// The places that `marked` tells among those of the first `j` blocks of
/// column `bx`.
pub open spec fn marked_in_column(marked: spec_fn(int, int) -> bool, bx: int, j: nat) -> Set<
    (int, int),
> {
    Set::new(|p: (int, int)| p.0 / 16 == bx && 0 <= p.1 < 16 * j && marked(p.0, p.1))
}

/// The places that `marked` tells among those of the first `i` columns of
/// a grid of `n` by `n` blocks.
pub open spec fn marked_in_grid(marked: spec_fn(int, int) -> bool, n: nat, i: nat) -> Set<(int, int)> {
    Set::new(|p: (int, int)| covered(n, i, p.0, p.1) && marked(p.0, p.1))
}

proof fn lemma_block_tally(marked: spec_fn(int, int) -> bool, bx: int, by: int, k: nat)
    requires
        k <= 256,
    ensures
        marked_in_block(marked, bx, by, k).finite(),
        marked_in_block(marked, bx, by, k).len() == block_sum(tally(marked), bx, by, k),
    decreases k,
{
    if k == 0 {
        assert(marked_in_block(marked, bx, by, 0) =~= Set::empty());
    } else {
        lemma_block_tally(marked, bx, by, (k - 1) as nat);
        let p = cell_of(bx, by, k - 1);
        let before = marked_in_block(marked, bx, by, (k - 1) as nat);
        assert forall|q: (int, int)|
            q.0 / 16 == bx && q.1 / 16 == by && q.0 % 16 + 16 * (q.1 % 16) == k - 1 implies q
            == p by {}
        if marked(p.0, p.1) {
            assert(marked_in_block(marked, bx, by, k) =~= before.insert(p));
        } else {
            assert(marked_in_block(marked, bx, by, k) =~= before);
        }
    }
}

proof fn lemma_column_tally(marked: spec_fn(int, int) -> bool, bx: int, j: nat)
    ensures
        marked_in_column(marked, bx, j).finite(),
        marked_in_column(marked, bx, j).len() == column_sum(tally(marked), bx, j),
    decreases j,
{
    if j == 0 {
        assert(marked_in_column(marked, bx, 0) =~= Set::empty());
    } else {
        lemma_column_tally(marked, bx, (j - 1) as nat);
        lemma_block_tally(marked, bx, j - 1, 256);
        let above = marked_in_column(marked, bx, (j - 1) as nat);
        let last = marked_in_block(marked, bx, j - 1, 256);
        assert(marked_in_column(marked, bx, j) =~= above + last);
        lemma_set_disjoint_lens(above, last);
    }
}

/// The sum of a tally is the number of places that it tells.
pub proof fn lemma_grid_tally(marked: spec_fn(int, int) -> bool, n: nat, i: nat)
    ensures
        marked_in_grid(marked, n, i).finite(),
        marked_in_grid(marked, n, i).len() == grid_sum(tally(marked), n, i),
    decreases i,
{
    if i == 0 {
        assert(marked_in_grid(marked, n, 0) =~= Set::empty());
    } else {
        lemma_grid_tally(marked, n, (i - 1) as nat);
        lemma_column_tally(marked, i - 1, n);
        let left = marked_in_grid(marked, n, (i - 1) as nat);
        let last = marked_in_column(marked, i - 1, n);
        assert(marked_in_grid(marked, n, i) =~= left + last);
        lemma_set_disjoint_lens(left, last);
    }
}

} // verus!
