//! Conway's Game of Life on a bounded field of living (`true`) and dead
//! (`false`) cells. Cells outside the field count as dead.
use vstd::prelude::*;

use crate::convolution::{convolve_3x3, is_binary, moore_kernel_vec};
use crate::grid::{all_cells, flat_index, is_rectangular, lemma_flat_index_bounds, unflatten, Grid};
use crate::neighbors::{
    alive_at, bit, column_count, lemma_convolution_counts_neighbors, lemma_window, live_neighbors,
    window_count,
};

verus! {

/// Conway's rule: a cell lives in the next generation when it has three living
/// neighbours, or when it is alive and has two.
pub open spec fn survives(alive: bool, neighbors: nat) -> bool {
    neighbors == 3 || (alive && neighbors == 2)
}

/// The next generation of the whole field.
pub open spec fn next_generation(g: Seq<Seq<bool>>) -> Seq<Seq<bool>> {
    Seq::new(
        g.len(),
        |x: int| Seq::new(g[x].len(), |y: int| survives(g[x][y], live_neighbors(g, x, y))),
    )
}

/// 1 when the position `(a, b)` lies inside the field and its cell is alive,
/// else 0.
pub open spec fn living_at(g: Seq<Seq<bool>>, a: int, b: int) -> int {
    if 0 <= a < g.len() && 0 <= b < g[a].len() && g[a][b] {
        1
    } else {
        0
    }
}

/// Conway's rule for one cell: with `n` the number of living cells among the
/// eight around `(x, y)` (cells outside the field count as dead), the cell is
/// alive in the next generation exactly when `n` is 3, or when it is alive and
/// `n` is 2.
pub proof fn lemma_next_generation_of_a_cell(g: Seq<Seq<bool>>, x: int, y: int)
    requires
        is_rectangular(g, g.len(), if g.len() == 0 { 0 } else { g[0].len() }),
        0 <= x < g.len(),
        0 <= y < g[x].len(),
    ensures
        ({
            let n = living_at(g, x - 1, y - 1) + living_at(g, x - 1, y) + living_at(g, x - 1, y + 1)
                + living_at(g, x, y - 1) + living_at(g, x, y + 1) + living_at(g, x + 1, y - 1)
                + living_at(g, x + 1, y) + living_at(g, x + 1, y + 1);
            &&& next_generation(g).len() == g.len()
            &&& next_generation(g)[x].len() == g[x].len()
            &&& next_generation(g)[x][y] == (n == 3 || (g[x][y] && n == 2))
        }),
{
}

/// The next generation has the shape of the field it comes from.
pub proof fn lemma_next_generation_keeps_shape(g: Seq<Seq<bool>>, numx: nat, numy: nat)
    requires
        is_rectangular(g, numx, numy),
    ensures
        is_rectangular(next_generation(g), numx, numy),
{
}

/// A field without living cells stays without living cells.
pub proof fn lemma_dead_field_stays_dead(g: Seq<Seq<bool>>)
    requires
        all_cells(g, false),
    ensures
        next_generation(g) == g,
{
    assert forall|x: int| 0 <= x < g.len() implies #[trigger] next_generation(g)[x] =~= g[x] by {
        assert forall|y: int| 0 <= y < g[x].len() implies #[trigger] next_generation(g)[x][y] == g[x][y] by {
            assert(!alive_at(g, x - 1, y - 1) && !alive_at(g, x - 1, y) && !alive_at(g, x - 1, y + 1));
            assert(!alive_at(g, x, y - 1) && !alive_at(g, x, y + 1));
            assert(!alive_at(g, x + 1, y - 1) && !alive_at(g, x + 1, y) && !alive_at(g, x + 1, y + 1));
        }
    }
    assert(next_generation(g) =~= g);
}

/// Started from the same field, the standard algorithm and the convolution
/// algorithm compute the same next generation.
pub proof fn lemma_std_and_convolution_agree(
    std_before: GameOfLifeStd,
    std_after: GameOfLifeStd,
    conv_before: GameOfLifeConvolution,
    conv_after: GameOfLifeConvolution,
)
    requires
        std_before.field() == conv_before.field(),
        std_after.field() == next_generation(std_before.field()),
        conv_after.field() == next_generation(conv_before.field()),
    ensures
        std_after.field() == conv_after.field(),
{
}

/// The cell drawn in the subarea `id` of a plot split into `numy` rows of
/// `numx` equal subareas, numbered row by row: column `id % numx` of row
/// `id / numx`. Each of the `numx * numy` subareas shows a different cell of
/// the field.
pub fn plot_cell(id: usize, numx: usize, numy: usize) -> (cell: (usize, usize))
    requires
        numx > 0,
    ensures
        cell.0 == id % numx,
        cell.1 == id / numx,
        id == cell.1 * numx + cell.0,
        id < numx * numy ==> cell.0 < numx && cell.1 < numy,
{
    let cell = (id % numx, id / numx);
    proof {
        lemma_plot_cell(id as int, numx as int, numy as int);
    }
    cell
}

proof fn lemma_plot_cell(id: int, numx: int, numy: int)
    requires
        0 <= id,
        numx > 0,
    ensures
        id == (id / numx) * numx + id % numx,
        0 <= id % numx < numx,
        id < numx * numy ==> id / numx < numy,
{
    assert(id == (id / numx) * numx + id % numx && 0 <= id % numx < numx) by (nonlinear_arith)
        requires
            0 <= id,
            numx > 0,
    ;
    if id < numx * numy && id / numx >= numy {
        assert((id / numx) * numx >= numy * numx) by (nonlinear_arith)
            requires
                id / numx >= numy,
                numx > 0,
        ;
        assert(numy * numx == numx * numy) by (nonlinear_arith);
    }
}

/// Every Game of Life algorithm implements this trait.
pub trait GameOfLife: Sized {
    /// The field, `field()[x][y]` being the cell `(x, y)`.
    spec fn field(&self) -> Seq<Seq<bool>>;

    /// Number of columns.
    spec fn spec_numx(&self) -> nat;

    /// Number of rows.
    spec fn spec_numy(&self) -> nat;

    /// The internal representation is consistent.
    spec fn inv(&self) -> bool;

    /// A consistent game has a field of `numx` columns of `numy` cells.
    proof fn lemma_shape(&self)
        requires
            self.inv(),
        ensures
            is_rectangular(self.field(), self.spec_numx(), self.spec_numy()),
    ;

    /// Generates a new Game of Life from an initial field.
    fn new(field: Grid<bool>) -> (gol: Self)
        requires
            field.wf(),
        ensures
            gol.inv(),
            gol.field() == field@,
            gol.spec_numx() == field.spec_numx(),
            gol.spec_numy() == field.spec_numy(),
            is_rectangular(gol.field(), gol.spec_numx(), gol.spec_numy()),
    ;

    /// Computes the next generation.
    fn compute_next_generation(&mut self)
        requires
            old(self).inv(),
        ensures
            final(self).inv(),
            final(self).spec_numx() == old(self).spec_numx(),
            final(self).spec_numy() == old(self).spec_numy(),
            final(self).field() == next_generation(old(self).field()),
            is_rectangular(final(self).field(), final(self).spec_numx(), final(self).spec_numy()),
    ;

    /// Returns the value at (x, y).
    fn cell(&self, x: usize, y: usize) -> (alive: bool)
        requires
            self.inv(),
            x < self.spec_numx(),
            y < self.spec_numy(),
        ensures
            alive == self.field()[x as int][y as int],
    ;

    /// Returns the number of columns.
    fn numx(&self) -> (n: usize)
        ensures
            n == self.spec_numx(),
    ;

    /// Returns the number of rows.
    fn numy(&self) -> (n: usize)
        ensures
            n == self.spec_numy(),
    ;
}

/// Computes the time steps by counting the neighbours of each cell.
pub struct GameOfLifeStd {
    field: Grid<bool>,
    numx: usize,
    numy: usize,
}

impl GameOfLifeStd {
    /// Counts the living neighbors of the cell at (x, y)
    pub fn count_living_neighbors(&self, x: usize, y: usize) -> (n: u8)
        requires
            self.inv(),
            x < self.spec_numx(),
            y < self.spec_numy(),
        ensures
            n == live_neighbors(self.field(), x as int, y as int),
    {
        let ghost g = self.field@;
        let right_border = if x + 1 < self.numx {
            x + 2
        } else {
            self.numx
        };
        let left_border = if x > 1 {
            x - 1
        } else {
            0
        };
        let border = if y + 1 < self.numy {
            y + 2
        } else {
            self.numy
        };
        let top_border = if y > 1 {
            y - 1
        } else {
            0
        };
        let mut sum: u8 = 0;
        let mut i = left_border;
        while i < right_border
            invariant
                self.inv(),
                g == self.field@,
                left_border <= i <= right_border,
                right_border <= self.numx,
                right_border - left_border <= 3,
                top_border <= border <= self.numy,
                border - top_border <= 3,
                sum == window_count(g, left_border as int, i as int, top_border as int, border as int),
                sum <= 3 * (i - left_border),
            decreases right_border - i,
        {
            let mut j = top_border;
            let ghost before = sum;
            while j < border
                invariant
                    self.inv(),
                    g == self.field@,
                    left_border <= i < right_border,
                    right_border <= self.numx,
                    right_border - left_border <= 3,
                    top_border <= j <= border,
                    border <= self.numy,
                    border - top_border <= 3,
                    before == window_count(g, left_border as int, i as int, top_border as int, border as int),
                    before <= 3 * (i - left_border),
                    sum == before + column_count(g, i as int, top_border as int, j as int),
                    sum <= before + (j - top_border),
                decreases border - j,
            {
                if self.field.at(i, j) {
                    sum = sum + 1;
                }
                j = j + 1;
            }
            i = i + 1;
        }
        proof {
            lemma_window(g, self.numx as int, self.numy as int, x as int, y as int);
        }
        if self.field.at(x, y) {
            sum - 1
        } else {
            sum
        }
    }
}

impl GameOfLifeStd {
    /// The field.
    pub fn grid(&self) -> (g: &Grid<bool>)
        requires
            self.inv(),
        ensures
            g.wf(),
            g@ == self.field(),
            g.spec_numx() == self.spec_numx(),
            g.spec_numy() == self.spec_numy(),
    {
        &self.field
    }
}

impl GameOfLife for GameOfLifeStd {
    closed spec fn field(&self) -> Seq<Seq<bool>> {
        self.field@
    }

    closed spec fn spec_numx(&self) -> nat {
        self.numx as nat
    }

    closed spec fn spec_numy(&self) -> nat {
        self.numy as nat
    }

    closed spec fn inv(&self) -> bool {
        &&& self.field.wf()
        &&& self.field.spec_numx() == self.numx
        &&& self.field.spec_numy() == self.numy
    }

    proof fn lemma_shape(&self) {
    }

    fn new(field: Grid<bool>) -> (gol: Self) {
        let numx = field.numx();
        let numy = field.numy();
        GameOfLifeStd { field, numx, numy }
    }

    /// Computes the new generation
    fn compute_next_generation(&mut self) {
        let ghost g = self.field@;
        let mut temp = Grid::from_elem(self.numx, self.numy, false);
        let mut x: usize = 0;
        while x < self.numx
            invariant
                self.inv(),
                g == self.field@,
                x <= self.numx,
                temp.wf(),
                temp.spec_numx() == self.numx,
                temp.spec_numy() == self.numy,
                forall|a: int, b: int|
                    0 <= a < self.numx && 0 <= b < self.numy ==> #[trigger] temp@[a][b] == (if a < x {
                        survives(g[a][b], live_neighbors(g, a, b))
                    } else {
                        false
                    }),
            decreases self.numx - x,
        {
            let mut y: usize = 0;
            while y < self.numy
                invariant
                    self.inv(),
                    g == self.field@,
                    x < self.numx,
                    y <= self.numy,
                    temp.wf(),
                    temp.spec_numx() == self.numx,
                    temp.spec_numy() == self.numy,
                    forall|a: int, b: int|
                        0 <= a < self.numx && 0 <= b < self.numy ==> #[trigger] temp@[a][b] == (if a < x
                            || (a == x && b < y) {
                            survives(g[a][b], live_neighbors(g, a, b))
                        } else {
                            false
                        }),
                decreases self.numy - y,
            {
                let count = self.count_living_neighbors(x, y);
                if count == 3 || (self.field.at(x, y) && count == 2) {
                    temp.set(x, y, true);
                }
                y = y + 1;
            }
            x = x + 1;
        }
        self.field = temp;
        proof {
            assert(self.field@ =~= next_generation(g)) by {
                assert forall|a: int| 0 <= a < self.numx implies #[trigger] self.field@[a] =~= next_generation(g)[a] by {
                }
            }
        }
    }

    fn cell(&self, x: usize, y: usize) -> (alive: bool) {
        self.field.at(x, y)
    }

    fn numx(&self) -> (n: usize) {
        self.numx
    }

    fn numy(&self) -> (n: usize) {
        self.numy
    }
}

/// Computes the time steps using `ndarray_ndimage`'s `convolve`.
pub struct GameOfLifeConvolution {
    field: Grid<bool>,
    numx: usize,
    numy: usize,
}

impl GameOfLifeConvolution {
    /// The field.
    pub fn grid(&self) -> (g: &Grid<bool>)
        requires
            self.inv(),
        ensures
            g.wf(),
            g@ == self.field(),
            g.spec_numx() == self.spec_numx(),
            g.spec_numy() == self.spec_numy(),
    {
        &self.field
    }
}

impl GameOfLife for GameOfLifeConvolution {
    closed spec fn field(&self) -> Seq<Seq<bool>> {
        self.field@
    }

    closed spec fn spec_numx(&self) -> nat {
        self.numx as nat
    }

    closed spec fn spec_numy(&self) -> nat {
        self.numy as nat
    }

    closed spec fn inv(&self) -> bool {
        &&& self.field.wf()
        &&& self.field.spec_numx() == self.numx
        &&& self.field.spec_numy() == self.numy
    }

    proof fn lemma_shape(&self) {
    }

    fn new(field: Grid<bool>) -> (gol: Self) {
        let numx = field.numx();
        let numy = field.numy();
        GameOfLifeConvolution { field, numx, numy }
    }

    fn compute_next_generation(&mut self) {
        let ghost g = self.field@;
        if self.numx == 0 || self.numy == 0 {
            proof {
                assert(self.field@ =~= next_generation(g)) by {
                    assert forall|a: int| 0 <= a < self.numx implies #[trigger] self.field@[a] =~= next_generation(g)[a] by {
                    }
                }
            }
            return;
        }
        let numx = self.numx;
        let numy = self.numy;
        let cells = self.field.storage();
        let total = cells.len();
        let mut image: Vec<usize> = Vec::new();
        let mut i: usize = 0;
        while i < total
            invariant
                total == cells@.len(),
                i <= total,
                image@.len() == i,
                forall|k: int| 0 <= k < i ==> #[trigger] image@[k] == (if cells@[k] {
                    1usize
                } else {
                    0usize
                }),
            decreases total - i,
        {
            if cells[i] {
                image.push(1);
            } else {
                image.push(0);
            }
            i = i + 1;
        }
        proof {
            assert(unflatten(cells@, numx as nat, numy as nat) == g);
            assert forall|a: int, b: int| 0 <= a < numx && 0 <= b < numy implies #[trigger] image@[flat_index(
                numy as int,
                a,
                b,
            )] as nat == bit(g[a][b]) by {
                lemma_flat_index_bounds(numx as int, numy as int, a, b);
                assert(g[a][b] == cells@[flat_index(numy as int, a, b)]);
            }
        }
        let kernel = moore_kernel_vec();
        proof {
            assert(is_binary(image@));
            assert(is_binary(kernel@));
        }
        let counts = convolve_3x3(&image, numx, numy, &kernel);
        proof {
            assert forall|a: int, b: int| 0 <= a < numx && 0 <= b < numy implies #[trigger] counts@[flat_index(
                numy as int,
                a,
                b,
            )] == live_neighbors(g, a, b) by {
                lemma_convolution_counts_neighbors(g, image@, numx as int, numy as int, a, b);
            }
        }
        let mut x: usize = 0;
        while x < numx
            invariant
                numx == self.numx,
                numy == self.numy,
                self.inv(),
                x <= numx,
                g.len() == numx,
                is_rectangular(g, numx as nat, numy as nat),
                counts@.len() == numx * numy,
                numx * numy <= usize::MAX,
                forall|a: int, b: int|
                    0 <= a < numx && 0 <= b < numy ==> #[trigger] counts@[flat_index(numy as int, a, b)]
                        == live_neighbors(g, a, b),
                forall|a: int, b: int|
                    0 <= a < numx && 0 <= b < numy ==> #[trigger] self.field@[a][b] == (if a < x {
                        survives(g[a][b], live_neighbors(g, a, b))
                    } else {
                        g[a][b]
                    }),
            decreases numx - x,
        {
            let mut y: usize = 0;
            while y < numy
                invariant
                    numx == self.numx,
                    numy == self.numy,
                    self.inv(),
                    x < numx,
                    y <= numy,
                    g.len() == numx,
                    is_rectangular(g, numx as nat, numy as nat),
                    counts@.len() == numx * numy,
                    numx * numy <= usize::MAX,
                    forall|a: int, b: int|
                        0 <= a < numx && 0 <= b < numy ==> #[trigger] counts@[flat_index(
                            numy as int,
                            a,
                            b,
                        )] == live_neighbors(g, a, b),
                    forall|a: int, b: int|
                        0 <= a < numx && 0 <= b < numy ==> #[trigger] self.field@[a][b] == (if a < x || (a
                            == x && b < y) {
                            survives(g[a][b], live_neighbors(g, a, b))
                        } else {
                            g[a][b]
                        }),
                decreases numy - y,
            {
                proof {
                    lemma_flat_index_bounds(numx as int, numy as int, x as int, y as int);
                }
                let count = counts[x * numy + y];
                let alive = self.field.at(x, y);
                if count == 3 || (alive && count == 2) {
                    self.field.set(x, y, true);
                } else {
                    self.field.set(x, y, false);
                }
                y = y + 1;
            }
            x = x + 1;
        }
        proof {
            assert(self.field@ =~= next_generation(g)) by {
                assert forall|a: int| 0 <= a < self.numx implies #[trigger] self.field@[a] =~= next_generation(g)[a] by {
                }
            }
        }
    }

    fn cell(&self, x: usize, y: usize) -> (alive: bool) {
        self.field.at(x, y)
    }

    fn numx(&self) -> (n: usize) {
        self.numx
    }

    fn numy(&self) -> (n: usize) {
        self.numy
    }
}

} // verus!
