//! A rectangular two-dimensional field of cells.
//!
//! The field has `numx` columns and `numy` rows; the cell `(x, y)` is read with
//! `x < numx` and `y < numy`. Cells are stored in one vector, `x * numy + y`
//! being the position of `(x, y)`.
use vstd::prelude::*;

verus! {

/// The first index is the column, the second the row.
pub open spec fn is_rectangular<T>(s: Seq<Seq<T>>, numx: nat, numy: nat) -> bool {
    &&& s.len() == numx
    &&& forall|x: int| 0 <= x < numx ==> #[trigger] s[x].len() == numy
}

/// `s[x][y] == v` for every cell of the field.
pub open spec fn all_cells<T>(s: Seq<Seq<T>>, v: T) -> bool {
    forall|x: int, y: int| 0 <= x < s.len() && 0 <= y < s[x].len() ==> #[trigger] s[x][y] == v
}

/// Position of the cell `(x, y)` in the row-major storage of a field with `numy` rows.
pub open spec fn flat_index(numy: int, x: int, y: int) -> int {
    x * numy + y
}

/// Each cell position of an `numx` by `numy` field lies inside its storage.
pub proof fn lemma_flat_index_bounds(numx: int, numy: int, x: int, y: int)
    requires
        0 <= x < numx,
        0 <= y < numy,
    ensures
        0 <= flat_index(numy, x, y) < numx * numy,
        flat_index(numy, x, y) + 1 <= numx * numy,
{
    assert(x * numy + y < numx * numy) by (nonlinear_arith)
        requires
            0 <= x < numx,
            0 <= y < numy,
    ;
    assert(0 <= x * numy) by (nonlinear_arith)
        requires
            0 <= x,
            0 <= y < numy,
    ;
}

/// Two cells of a field share a storage position only if they are the same cell.
pub proof fn lemma_flat_index_injective(numy: int, x1: int, y1: int, x2: int, y2: int)
    requires
        0 <= x1,
        0 <= x2,
        0 <= y1 < numy,
        0 <= y2 < numy,
        flat_index(numy, x1, y1) == flat_index(numy, x2, y2),
    ensures
        x1 == x2,
        y1 == y2,
{
    if x1 < x2 {
        assert(x1 * numy + numy <= x2 * numy) by (nonlinear_arith)
            requires
                x1 < x2,
                0 <= y1 < numy,
        ;
    } else if x2 < x1 {
        assert(x2 * numy + numy <= x1 * numy) by (nonlinear_arith)
            requires
                x2 < x1,
                0 <= y1 < numy,
        ;
    }
}

/// The field read from row-major storage.
pub open spec fn unflatten<T>(cells: Seq<T>, numx: nat, numy: nat) -> Seq<Seq<T>> {
    Seq::new(numx, |x: int| Seq::new(numy, |y: int| cells[flat_index(numy as int, x, y)]))
}

pub struct Grid<T> {
    cells: Vec<T>,
    numx: usize,
    numy: usize,
}

impl<T> View for Grid<T> {
    type V = Seq<Seq<T>>;

    closed spec fn view(&self) -> Seq<Seq<T>> {
        unflatten(self.cells@, self.numx as nat, self.numy as nat)
    }
}

impl<T: Copy> Grid<T> {
    /// Number of columns.
    pub closed spec fn spec_numx(&self) -> nat {
        self.numx as nat
    }

    /// Number of rows.
    pub closed spec fn spec_numy(&self) -> nat {
        self.numy as nat
    }

    pub closed spec fn storage_ok(&self) -> bool {
        self.cells@.len() == self.numx * self.numy
    }

    /// The storage holds exactly one value per cell.
    pub open spec fn wf(&self) -> bool {
        &&& self.storage_ok()
        &&& self.spec_numx() * self.spec_numy() <= usize::MAX
        &&& is_rectangular(self@, self.spec_numx(), self.spec_numy())
    }

    proof fn lemma_view_shape(&self)
        requires
            self.cells@.len() <= usize::MAX,
        ensures
            self.numx * self.numy == self.cells@.len() ==> self.spec_numx() * self.spec_numy() <= usize::MAX,
            is_rectangular(self@, self.spec_numx(), self.spec_numy()),
    {
    }

    /// A field of the given size in which every cell holds `elem`.
    pub fn from_elem(numx: usize, numy: usize, elem: T) -> (g: Self)
        requires
            numx * numy <= usize::MAX,
        ensures
            g.wf(),
            g.spec_numx() == numx,
            g.spec_numy() == numy,
            all_cells(g@, elem),
    {
        let total: usize = numx * numy;
        let mut cells: Vec<T> = Vec::new();
        let mut i: usize = 0;
        while i < total
            invariant
                i <= total,
                cells@.len() == i,
                forall|j: int| 0 <= j < i ==> cells@[j] == elem,
            decreases total - i,
        {
            cells.push(elem);
            i = i + 1;
        }
        let g = Grid { cells, numx, numy };
        proof {
            g.lemma_view_shape();
            assert forall|x: int, y: int| 0 <= x < g@.len() && 0 <= y < g@[x].len() implies #[trigger] g@[x][y] == elem by {
                lemma_flat_index_bounds(numx as int, numy as int, x, y);
            }
        }
        g
    }

    /// Reads a field of `numx` columns and `numy` rows from row-major storage.
    /// Refused (`None`) when the storage does not hold exactly `numx * numy` values.
    pub fn from_shape_vec(numx: usize, numy: usize, cells: Vec<T>) -> (g: Option<Self>)
        ensures
            g is Some <==> numx * numy == cells@.len(),
            g matches Some(g) ==> {
                &&& g.wf()
                &&& g.spec_numx() == numx
                &&& g.spec_numy() == numy
                &&& g@ == unflatten(cells@, numx as nat, numy as nat)
            },
    {
        let len = cells.len();
        match numx.checked_mul(numy) {
            Some(total) => {
                if total == len {
                    let g = Grid { cells, numx, numy };
                    proof {
                        g.lemma_view_shape();
                    }
                    Some(g)
                } else {
                    None
                }
            },
            None => None,
        }
    }

    /// Builds a field from its columns; `rows[x][y]` becomes the cell `(x, y)`.
    /// Refused (`None`) when the columns differ in length.
    pub fn from_rows(rows: Vec<Vec<T>>) -> (g: Option<Self>)
        ensures
            g is Some <==> (forall|x: int| 0 <= x < rows@.len() ==> #[trigger] rows@[x]@.len() == rows@[0]@.len()),
            g matches Some(g) ==> {
                &&& g.wf()
                &&& g.spec_numx() == rows@.len()
                &&& g.spec_numy() == (if rows@.len() == 0 { 0 } else { rows@[0]@.len() })
                &&& forall|x: int| 0 <= x < rows@.len() ==> #[trigger] g@[x] == rows@[x]@
            },
    {
        let numx = rows.len();
        if numx == 0 {
            let g = Grid { cells: Vec::new(), numx: 0, numy: 0 };
            proof {
                g.lemma_view_shape();
            }
            return Some(g);
        }
        let numy = rows[0].len();
        let mut x: usize = 0;
        while x < numx
            invariant
                numx == rows@.len(),
                numy == rows@[0]@.len(),
                x <= numx,
                forall|k: int| 0 <= k < x ==> #[trigger] rows@[k]@.len() == numy,
            decreases numx - x,
        {
            if rows[x].len() != numy {
                return None;
            }
            x = x + 1;
        }
        let mut cells: Vec<T> = Vec::new();
        let mut x: usize = 0;
        while x < numx
            invariant
                numx == rows@.len(),
                numy == rows@[0]@.len(),
                x <= numx,
                forall|k: int| 0 <= k < numx ==> #[trigger] rows@[k]@.len() == numy,
                cells@.len() == x * numy,
                forall|i: int, j: int| 0 <= i < x && 0 <= j < numy ==>
                    cells@[flat_index(numy as int, i, j)] == #[trigger] rows@[i]@[j],
            decreases numx - x,
        {
            let mut y: usize = 0;
            let ghost before = cells@;
            while y < numy
                invariant
                    numx == rows@.len(),
                    numy == rows@[0]@.len(),
                    x < numx,
                    rows@[x as int]@.len() == numy,
                    y <= numy,
                    before.len() == x * numy,
                    cells@.len() == x * numy + y,
                    forall|k: int| 0 <= k < x * numy ==> #[trigger] cells@[k] == before[k],
                    forall|j: int| 0 <= j < y ==> cells@[x * numy + j] == #[trigger] rows@[x as int]@[j],
                decreases numy - y,
            {
                cells.push(rows[x][y]);
                y = y + 1;
            }
            proof {
                assert((x + 1) * numy == x * numy + numy) by (nonlinear_arith);
                assert forall|i: int, j: int| 0 <= i < x + 1 && 0 <= j < numy implies
                    cells@[flat_index(numy as int, i, j)] == #[trigger] rows@[i]@[j] by {
                    if i < x {
                        lemma_flat_index_bounds(x as int, numy as int, i, j);
                    }
                }
            }
            x = x + 1;
        }
        let stored = cells.len();
        assert(stored == numx * numy);
        let g = Grid { cells, numx, numy };
        proof {
            g.lemma_view_shape();
            assert forall|x: int| 0 <= x < rows@.len() implies #[trigger] g@[x] == rows@[x]@ by {
                assert(g@[x] =~= rows@[x]@);
            }
        }
        Some(g)
    }

    /// The row-major storage of the field.
    pub fn storage(&self) -> (s: &Vec<T>)
        requires
            self.wf(),
        ensures
            s@.len() == self.spec_numx() * self.spec_numy(),
            unflatten(s@, self.spec_numx(), self.spec_numy()) == self@,
    {
        &self.cells
    }

    /// Number of columns.
    pub fn numx(&self) -> (n: usize)
        ensures
            n == self.spec_numx(),
    {
        self.numx
    }

    /// Number of rows.
    pub fn numy(&self) -> (n: usize)
        ensures
            n == self.spec_numy(),
    {
        self.numy
    }

    /// The cell `(x, y)`, or `None` when it lies outside the field.
    pub fn get(&self, x: usize, y: usize) -> (c: Option<T>)
        requires
            self.wf(),
        ensures
            c is Some <==> (x < self.spec_numx() && y < self.spec_numy()),
            c matches Some(v) ==> v == self@[x as int][y as int],
    {
        if x < self.numx && y < self.numy {
            Some(self.at(x, y))
        } else {
            None
        }
    }

    /// The cell `(x, y)`, which must lie inside the field.
    pub fn at(&self, x: usize, y: usize) -> (v: T)
        requires
            self.wf(),
            x < self.spec_numx(),
            y < self.spec_numy(),
        ensures
            v == self@[x as int][y as int],
    {
        proof {
            lemma_flat_index_bounds(self.numx as int, self.numy as int, x as int, y as int);
        }
        let stored = self.cells.len();
        assert(flat_index(self.numy as int, x as int, y as int) < stored);
        self.cells[x * self.numy + y]
    }

    /// Overwrites the cell `(x, y)`, which must lie inside the field.
    pub fn set(&mut self, x: usize, y: usize, v: T)
        requires
            old(self).wf(),
            x < old(self).spec_numx(),
            y < old(self).spec_numy(),
        ensures
            final(self).wf(),
            final(self).spec_numx() == old(self).spec_numx(),
            final(self).spec_numy() == old(self).spec_numy(),
            final(self)@ == old(self)@.update(x as int, old(self)@[x as int].update(y as int, v)),
    {
        proof {
            lemma_flat_index_bounds(self.numx as int, self.numy as int, x as int, y as int);
        }
        let ghost old_view = self@;
        let stored = self.cells.len();
        assert(flat_index(self.numy as int, x as int, y as int) < stored);
        let i = x * self.numy + y;
        self.cells.set(i, v);
        proof {
            self.lemma_view_shape();
            let expected = old_view.update(x as int, old_view[x as int].update(y as int, v));
            assert forall|a: int| 0 <= a < self.numx implies #[trigger] self@[a] =~= expected[a] by {
                assert forall|b: int| 0 <= b < self.numy implies #[trigger] self@[a][b] == expected[a][b] by {
                    lemma_flat_index_bounds(self.numx as int, self.numy as int, a, b);
                    if a != x || b != y {
                        if flat_index(self.numy as int, a, b) == i {
                            lemma_flat_index_injective(self.numy as int, a, b, x as int, y as int);
                        }
                    }
                }
            }
            assert(self@ =~= expected);
        }
    }

    /// The columns of the field; `result[x][y]` is the cell `(x, y)`.
    pub fn to_rows(&self) -> (rows: Vec<Vec<T>>)
        requires
            self.wf(),
        ensures
            rows@.len() == self.spec_numx(),
            forall|x: int| 0 <= x < self.spec_numx() ==> #[trigger] rows@[x]@ == self@[x],
    {
        let mut rows: Vec<Vec<T>> = Vec::new();
        let mut x: usize = 0;
        while x < self.numx
            invariant
                self.wf(),
                x <= self.numx,
                rows@.len() == x,
                forall|k: int| 0 <= k < x ==> #[trigger] rows@[k]@ == self@[k],
            decreases self.numx - x,
        {
            let mut row: Vec<T> = Vec::new();
            let mut y: usize = 0;
            while y < self.numy
                invariant
                    self.wf(),
                    x < self.numx,
                    y <= self.numy,
                    row@.len() == y,
                    forall|j: int| 0 <= j < y ==> #[trigger] row@[j] == self@[x as int][j],
                decreases self.numy - y,
            {
                row.push(self.at(x, y));
                y = y + 1;
            }
            proof {
                assert(row@ =~= self@[x as int]);
            }
            rows.push(row);
            x = x + 1;
        }
        rows
    }
}

} // verus!
