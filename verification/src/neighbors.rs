//! Counting the living cells around a cell of a field of booleans: the eight
//! surrounding cells (Moore) or the four that share a side (von Neumann).
//! Cells outside the field count as dead.
use vstd::prelude::*;

use crate::convolution::{
    convolution_at, lemma_moore_convolution, lemma_von_neumann_convolution, moore_kernel,
    padded_at, von_neumann_kernel,
};
use crate::grid::{flat_index, is_rectangular};

verus! {

/// The cell `(x, y)` lies inside the field and is alive.
pub open spec fn alive_at(g: Seq<Seq<bool>>, x: int, y: int) -> bool {
    0 <= x < g.len() && 0 <= y < g[x].len() && g[x][y]
}

/// 1 for a living cell, 0 for a dead one.
pub open spec fn bit(b: bool) -> nat {
    if b {
        1
    } else {
        0
    }
}

/// Number of living cells among the eight cells around `(x, y)`.
pub open spec fn live_neighbors(g: Seq<Seq<bool>>, x: int, y: int) -> nat {
    bit(alive_at(g, x - 1, y - 1)) + bit(alive_at(g, x - 1, y)) + bit(alive_at(g, x - 1, y + 1))
        + bit(alive_at(g, x, y - 1)) + bit(alive_at(g, x, y + 1)) + bit(alive_at(g, x + 1, y - 1))
        + bit(alive_at(g, x + 1, y)) + bit(alive_at(g, x + 1, y + 1))
}

/// Number of living cells among the four cells that share a side with `(x, y)`.
pub open spec fn von_neumann_neighbors(g: Seq<Seq<bool>>, x: int, y: int) -> nat {
    bit(alive_at(g, x - 1, y)) + bit(alive_at(g, x, y - 1)) + bit(alive_at(g, x, y + 1)) + bit(
        alive_at(g, x + 1, y),
    )
}

/// Living cells in the column `x` between the rows `y0` (included) and `y1` (excluded).
pub open spec fn column_count(g: Seq<Seq<bool>>, x: int, y0: int, y1: int) -> nat
    decreases y1 - y0,
{
    if y1 <= y0 {
        0
    } else {
        column_count(g, x, y0, y1 - 1) + bit(alive_at(g, x, y1 - 1))
    }
}

/// Living cells in the columns `x0..x1` and the rows `y0..y1`.
pub open spec fn window_count(g: Seq<Seq<bool>>, x0: int, x1: int, y0: int, y1: int) -> nat
    decreases x1 - x0,
{
    if x1 <= x0 {
        0
    } else {
        window_count(g, x0, x1 - 1, y0, y1) + column_count(g, x1 - 1, y0, y1)
    }
}

/// The first and the last-plus-one index of the window of at most three
/// positions around `i` that lies inside `0..len`.
pub open spec fn low_border(i: int) -> int {
    if i > 1 {
        i - 1
    } else {
        0
    }
}

pub open spec fn high_border(i: int, len: int) -> int {
    if i + 1 < len {
        i + 2
    } else {
        len
    }
}

proof fn lemma_column_window(g: Seq<Seq<bool>>, numy: int, x: int, y: int)
    requires
        0 <= y < numy,
        0 <= x < g.len() ==> g[x].len() == numy,
    ensures
        column_count(g, x, low_border(y), high_border(y, numy)) == bit(alive_at(g, x, y - 1)) + bit(
            alive_at(g, x, y),
        ) + bit(alive_at(g, x, y + 1)),
{
    reveal_with_fuel(column_count, 4);
}

/// Counting every living cell of the window of at most 3 by 3 cells around `(x, y)`
/// that lies inside the field gives the living neighbours plus the cell itself.
pub proof fn lemma_window(g: Seq<Seq<bool>>, numx: int, numy: int, x: int, y: int)
    requires
        is_rectangular(g, numx as nat, numy as nat),
        0 <= x < numx,
        0 <= y < numy,
    ensures
        window_count(g, low_border(x), high_border(x, numx), low_border(y), high_border(y, numy))
            == live_neighbors(g, x, y) + bit(g[x][y]),
{
    reveal_with_fuel(window_count, 4);
    let t = low_border(y);
    let b = high_border(y, numy);
    lemma_column_window(g, numy, x - 1, y);
    lemma_column_window(g, numy, x, y);
    lemma_column_window(g, numy, x + 1, y);
    if x == 0 {
        assert(column_count(g, -1, t, b) == 0) by {
            reveal_with_fuel(column_count, 4);
        }
    }
    if x + 1 == numx {
        assert(column_count(g, x + 1, t, b) == 0) by {
            reveal_with_fuel(column_count, 4);
        }
    }
}

/// A cell has at most eight living neighbours, four of which share a side with it.
pub proof fn lemma_neighbors_bound(g: Seq<Seq<bool>>, x: int, y: int)
    ensures
        live_neighbors(g, x, y) <= 8,
        von_neumann_neighbors(g, x, y) <= 4,
{
}

/// The convolution of the field's 0/1 image with the Moore kernel is the number
/// of living neighbours of each cell; with the von Neumann kernel it is the number
/// of living cells that share a side with it.
pub proof fn lemma_convolution_counts_neighbors(
    g: Seq<Seq<bool>>,
    image: Seq<usize>,
    numx: int,
    numy: int,
    x: int,
    y: int,
)
    requires
        is_rectangular(g, numx as nat, numy as nat),
        0 <= numx,
        0 <= numy,
        forall|a: int, b: int|
            0 <= a < numx && 0 <= b < numy ==> #[trigger] image[flat_index(numy, a, b)] as nat == bit(
                g[a][b],
            ),
    ensures
        convolution_at(image, numx, numy, moore_kernel(), x, y) == live_neighbors(g, x, y),
        convolution_at(image, numx, numy, von_neumann_kernel(), x, y) == von_neumann_neighbors(g, x, y),
{
    lemma_moore_convolution(image, numx, numy, x, y);
    lemma_von_neumann_convolution(image, numx, numy, x, y);
    assert forall|a: int, b: int| #[trigger] padded_at(image, numx, numy, a, b) == bit(alive_at(g, a, b)) by {
        if 0 <= a < numx && 0 <= b < numy {
            assert(image[flat_index(numy, a, b)] as nat == bit(g[a][b]));
        }
    }
}

} // verus!
