//! # GameOfLife
//! Contains a collection of structure necessary for building a Game of Life.
//!
//! A cell holds a state from `0` to the rule's `state`: it is living when it
//! holds exactly `state`, and a cell that does not live on loses one state per
//! generation until it reaches `0`.
use vstd::prelude::*;

use crate::convolution::{convolve_3x3, is_binary, moore_kernel_vec, von_neumann_kernel_vec};
use crate::game_of_life::next_generation;
use crate::grid::{flat_index, is_rectangular, lemma_flat_index_bounds, unflatten, Grid};
use crate::neighbors::{
    bit, column_count, lemma_convolution_counts_neighbors, lemma_neighbors_bound,
    lemma_window, live_neighbors, von_neumann_neighbors, window_count,
};

verus! {

#[derive(Clone, Copy, Debug, PartialEq, Eq, Structural)]
pub enum NeighborRule {
    Moore,
    VonNeumann,
}

/// Rule of a Game of Life
/// - `survival`: With how many neighbors a living cell survives
/// - `birth`: With how many neighbors a dead cell is born
/// - `state`: After how many iterations a cell dies
/// - `neighbor`: Neighbor counting algorithm
#[derive(Clone, Copy)]
pub struct Rule {
    survival: [bool; 9],
    birth: [bool; 9],
    state: u8,
    neighbor: NeighborRule,
}

/// Survival with two or three living neighbours (Conway).
pub open spec fn conway_survival() -> Seq<bool> {
    seq![false, false, true, true, false, false, false, false, false]
}

/// Birth with three living neighbours (Conway).
pub open spec fn conway_birth() -> Seq<bool> {
    seq![false, false, false, true, false, false, false, false, false]
}

impl Rule {
    /// `survival[n]`: a living cell with `n` living neighbours lives on.
    pub closed spec fn spec_survival(&self) -> Seq<bool> {
        self.survival@
    }

    /// `birth[n]`: a cell with `n` living neighbours becomes living.
    pub closed spec fn spec_birth(&self) -> Seq<bool> {
        self.birth@
    }

    /// The state of a living cell.
    pub closed spec fn spec_state(&self) -> u8 {
        self.state
    }

    /// Which cells count as neighbours.
    pub closed spec fn spec_neighbor(&self) -> NeighborRule {
        self.neighbor
    }

    /// Both tables have one entry for each number of neighbours from 0 to 8.
    pub proof fn lemma_tables(&self)
        ensures
            self.spec_survival().len() == 9,
            self.spec_birth().len() == 9,
    {
    }

    pub fn new(survival: [bool; 9], birth: [bool; 9], state: u8, neighbor: NeighborRule) -> (r: Self)
        ensures
            r.spec_survival() == survival@,
            r.spec_birth() == birth@,
            r.spec_state() == state,
            r.spec_neighbor() == neighbor,
    {
        Self { survival, birth, state, neighbor }
    }

    /// The state of a living cell.
    pub fn state(&self) -> (s: u8)
        ensures
            s == self.spec_state(),
    {
        self.state
    }

    /// Which cells count as neighbours.
    pub fn neighbor(&self) -> (n: NeighborRule)
        ensures
            n == self.spec_neighbor(),
    {
        self.neighbor
    }
}

impl Default for Rule {
    /// Conway's rule: survival with two or three living neighbours, birth with
    /// three, a single living state, and the eight surrounding cells as neighbours.
    fn default() -> (r: Self)
        ensures
            r.spec_survival() == conway_survival(),
            r.spec_birth() == conway_birth(),
            r.spec_state() == 1,
            r.spec_neighbor() == NeighborRule::Moore,
    {
        let r = Rule::new(
            [false, false, true, true, false, false, false, false, false],
            [false, false, false, true, false, false, false, false, false],
            1,
            NeighborRule::Moore,
        );
        assert(r.spec_survival() =~= conway_survival());
        assert(r.spec_birth() =~= conway_birth());
        r
    }
}

/// The living cells of the field: those that hold `state`.
pub open spec fn living_cells(g: Seq<Seq<u8>>, state: u8) -> Seq<Seq<bool>> {
    Seq::new(g.len(), |x: int| Seq::new(g[x].len(), |y: int| g[x][y] == state))
}

/// Number of living neighbours of `(x, y)` under the neighbour rule.
pub open spec fn neighbor_count(neighbor: NeighborRule, g: Seq<Seq<u8>>, state: u8, x: int, y: int) -> nat {
    match neighbor {
        NeighborRule::Moore => live_neighbors(living_cells(g, state), x, y),
        NeighborRule::VonNeumann => von_neumann_neighbors(living_cells(g, state), x, y),
    }
}

/// The state of a cell with `n` living neighbours in the next generation: an
/// empty cell (state 0) is born, with `state`, when `birth[n]`, and stays empty
/// otherwise; a living cell keeps `state` when `survival[n]`; every other cell
/// loses one state.
pub open spec fn next_state(survival: Seq<bool>, birth: Seq<bool>, state: u8, v: u8, n: nat) -> u8 {
    if v == 0 {
        if birth[n as int] {
            state
        } else {
            0
        }
    } else if v == state && survival[n as int] {
        state
    } else {
        (v - 1) as u8
    }
}

/// The next generation of the whole field.
pub open spec fn next_states(rule: Rule, g: Seq<Seq<u8>>) -> Seq<Seq<u8>> {
    Seq::new(
        g.len(),
        |x: int|
            Seq::new(
                g[x].len(),
                |y: int|
                    next_state(
                        rule.spec_survival(),
                        rule.spec_birth(),
                        rule.spec_state(),
                        g[x][y],
                        neighbor_count(rule.spec_neighbor(), g, rule.spec_state(), x, y),
                    ),
            ),
    )
}

/// A cell has at most eight living neighbours under the Moore rule and at most
/// four under the von Neumann rule, so both tables of a rule cover every count.
pub proof fn lemma_neighbor_count_bound(neighbor: NeighborRule, g: Seq<Seq<u8>>, state: u8, x: int, y: int)
    ensures
        neighbor_count(neighbor, g, state, x, y) <= 8,
        neighbor == NeighborRule::VonNeumann ==> neighbor_count(neighbor, g, state, x, y) <= 4,
{
    lemma_neighbors_bound(living_cells(g, state), x, y);
}

/// The next generation has the shape of the field it comes from.
pub proof fn lemma_next_states_keep_shape(rule: Rule, g: Seq<Seq<u8>>, numx: nat, numy: nat)
    requires
        is_rectangular(g, numx, numy),
    ensures
        is_rectangular(next_states(rule, g), numx, numy),
{
}

/// When no cell holds more than the living state, no cell does in the next
/// generation either.
pub proof fn lemma_states_stay_bounded(rule: Rule, g: Seq<Seq<u8>>)
    requires
        forall|x: int, y: int| 0 <= x < g.len() && 0 <= y < g[x].len() ==> #[trigger] g[x][y] <= rule.spec_state(),
    ensures
        forall|x: int, y: int|
            0 <= x < g.len() && 0 <= y < g[x].len() ==> #[trigger] next_states(rule, g)[x][y] <= rule.spec_state(),
{
}

/// A cell that holds no state in the next generation is either born, with the
/// living state, or stays empty.
pub proof fn lemma_empty_cell_is_born_or_stays_empty(rule: Rule, g: Seq<Seq<u8>>, x: int, y: int)
    requires
        0 <= x < g.len(),
        0 <= y < g[x].len(),
        g[x][y] == 0,
        rule.spec_state() != 0,
    ensures
        next_states(rule, g)[x][y] == 0 || next_states(rule, g)[x][y] == rule.spec_state(),
{
}

/// A field of living (`true`) and dead (`false`) cells as states 1 and 0.
pub open spec fn as_states(g: Seq<Seq<bool>>) -> Seq<Seq<u8>> {
    Seq::new(
        g.len(),
        |x: int|
            Seq::new(
                g[x].len(),
                |y: int|
                    if g[x][y] {
                        1u8
                    } else {
                        0u8
                    },
            ),
    )
}

/// With Conway's tables, a single living state and the Moore neighbourhood, the
/// generalised game is Conway's Game of Life on fields of states 0 and 1.
pub proof fn lemma_conway_rule_is_game_of_life(rule: Rule, g: Seq<Seq<bool>>)
    requires
        rule.spec_survival() == conway_survival(),
        rule.spec_birth() == conway_birth(),
        rule.spec_state() == 1,
        rule.spec_neighbor() == NeighborRule::Moore,
    ensures
        next_states(rule, as_states(g)) == as_states(next_generation(g)),
{
    let s = as_states(g);
    assert(living_cells(s, 1) =~= g) by {
        assert forall|x: int| 0 <= x < g.len() implies #[trigger] living_cells(s, 1)[x] =~= g[x] by {}
    }
    let b = conway_birth();
    let v = conway_survival();
    assert(b[0] == false && b[1] == false && b[2] == false && b[3] == true && b[4] == false);
    assert(b[5] == false && b[6] == false && b[7] == false && b[8] == false);
    assert(v[0] == false && v[1] == false && v[2] == true && v[3] == true && v[4] == false);
    assert(v[5] == false && v[6] == false && v[7] == false && v[8] == false);
    assert forall|x: int| 0 <= x < g.len() implies #[trigger] next_states(rule, s)[x] =~= as_states(
        next_generation(g),
    )[x] by {
        assert forall|y: int| 0 <= y < g[x].len() implies #[trigger] next_states(rule, s)[x][y] == as_states(
            next_generation(g),
        )[x][y] by {
            lemma_neighbors_bound(g, x, y);
            let n = live_neighbors(g, x, y);
            assert(neighbor_count(rule.spec_neighbor(), s, 1, x, y) == n);
        }
    }
    assert(next_states(rule, s) =~= as_states(next_generation(g)));
}

/// 1 when the position `(a, b)` lies inside the field and its cell holds
/// exactly `state`, else 0.
pub open spec fn holds_state(g: Seq<Seq<u8>>, state: u8, a: int, b: int) -> int {
    if 0 <= a < g.len() && 0 <= b < g[a].len() && g[a][b] == state {
        1
    } else {
        0
    }
}

/// Under the Moore rule a cell's neighbours are the eight cells around it, and
/// one of them counts exactly when it holds the living state: a dying cell (a
/// state between 0 and the living state) or an empty one does not count.
pub proof fn lemma_moore_count_counts_living_cells(g: Seq<Seq<u8>>, state: u8, x: int, y: int)
    requires
        is_rectangular(g, g.len(), if g.len() == 0 { 0 } else { g[0].len() }),
    ensures
        neighbor_count(NeighborRule::Moore, g, state, x, y) == holds_state(g, state, x - 1, y - 1)
            + holds_state(g, state, x - 1, y) + holds_state(g, state, x - 1, y + 1) + holds_state(
            g,
            state,
            x,
            y - 1,
        ) + holds_state(g, state, x, y + 1) + holds_state(g, state, x + 1, y - 1) + holds_state(
            g,
            state,
            x + 1,
            y,
        ) + holds_state(g, state, x + 1, y + 1),
{
}

/// Under the von Neumann rule a cell's neighbours are the four cells that share
/// a side with it, `(x - 1, y)`, `(x + 1, y)`, `(x, y - 1)` and `(x, y + 1)`, and
/// one of them counts exactly when it holds the living state.
pub proof fn lemma_von_neumann_count_counts_living_cells(g: Seq<Seq<u8>>, state: u8, x: int, y: int)
    requires
        is_rectangular(g, g.len(), if g.len() == 0 { 0 } else { g[0].len() }),
    ensures
        neighbor_count(NeighborRule::VonNeumann, g, state, x, y) == holds_state(g, state, x - 1, y)
            + holds_state(g, state, x + 1, y) + holds_state(g, state, x, y - 1) + holds_state(
            g,
            state,
            x,
            y + 1,
        ),
{
}

/// What happens to the cell `(x, y)` in one generation, for every rule: with
/// `n` the number of its neighbours (under the rule's neighbourhood) that hold
/// the living state `s`, an empty cell becomes `s` exactly when `birth[n]` and
/// stays empty otherwise; a living cell stays `s` exactly when `survival[n]`;
/// every other cell loses one state.
pub proof fn lemma_next_generation_of_a_cell(rule: Rule, g: Seq<Seq<u8>>, x: int, y: int)
    requires
        is_rectangular(g, g.len(), if g.len() == 0 { 0 } else { g[0].len() }),
        0 <= x < g.len(),
        0 <= y < g[x].len(),
    ensures
        ({
            let s = rule.spec_state();
            let v = g[x][y];
            let n = match rule.spec_neighbor() {
                NeighborRule::Moore => holds_state(g, s, x - 1, y - 1) + holds_state(g, s, x - 1, y)
                    + holds_state(g, s, x - 1, y + 1) + holds_state(g, s, x, y - 1) + holds_state(
                    g,
                    s,
                    x,
                    y + 1,
                ) + holds_state(g, s, x + 1, y - 1) + holds_state(g, s, x + 1, y) + holds_state(
                    g,
                    s,
                    x + 1,
                    y + 1,
                ),
                NeighborRule::VonNeumann => holds_state(g, s, x - 1, y) + holds_state(g, s, x + 1, y)
                    + holds_state(g, s, x, y - 1) + holds_state(g, s, x, y + 1),
            };
            &&& 0 <= n <= 8
            &&& next_states(rule, g).len() == g.len()
            &&& next_states(rule, g)[x].len() == g[x].len()
            &&& next_states(rule, g)[x][y] == (if v == 0 {
                if rule.spec_birth()[n] {
                    s
                } else {
                    0
                }
            } else if v == s && rule.spec_survival()[n] {
                s
            } else {
                (v - 1) as u8
            })
        }),
{
    lemma_moore_count_counts_living_cells(g, rule.spec_state(), x, y);
    lemma_von_neumann_count_counts_living_cells(g, rule.spec_state(), x, y);
}

/// Started from the same field and rule, the standard algorithm and the
/// convolution algorithm compute the same next generation.
pub proof fn lemma_std_and_convolution_agree(
    std_before: GameOfLifeStd,
    std_after: GameOfLifeStd,
    conv_before: GameOfLifeConvolution,
    conv_after: GameOfLifeConvolution,
)
    requires
        std_before.field() == conv_before.field(),
        std_before.rule() == conv_before.rule(),
        std_after.field() == next_states(std_before.rule(), std_before.field()),
        conv_after.field() == next_states(conv_before.rule(), conv_before.field()),
    ensures
        std_after.field() == conv_after.field(),
{
}

/// Every Game of Life algorithm should implement this trait.
pub trait GameOfLife: Sized {
    /// The field, `field()[x][y]` being the state of the cell `(x, y)`.
    spec fn field(&self) -> Seq<Seq<u8>>;

    /// The rule the game follows.
    spec fn rule(&self) -> Rule;

    /// Number of columns.
    spec fn spec_numx(&self) -> nat;

    /// Number of rows.
    spec fn spec_numy(&self) -> nat;

    /// The internal representation is consistent.
    spec fn inv(&self) -> bool;

    /// A consistent game has a field of `numx` columns of `numy` cells.
    proof fn lemma_shape(&self)
        requires
            self.inv(),
        ensures
            is_rectangular(self.field(), self.spec_numx(), self.spec_numy()),
    ;

    /// Generate a new Game of Life from initial field
    fn new(field: Grid<u8>, rules: Rule) -> (gol: Self)
        requires
            field.wf(),
        ensures
            gol.inv(),
            gol.field() == field@,
            gol.rule() == rules,
            gol.spec_numx() == field.spec_numx(),
            gol.spec_numy() == field.spec_numy(),
            is_rectangular(gol.field(), gol.spec_numx(), gol.spec_numy()),
    ;

    /// Compute the next generation
    fn compute_next_generation(&mut self)
        requires
            old(self).inv(),
        ensures
            final(self).inv(),
            final(self).rule() == old(self).rule(),
            final(self).spec_numx() == old(self).spec_numx(),
            final(self).spec_numy() == old(self).spec_numy(),
            final(self).field() == next_states(old(self).rule(), old(self).field()),
            is_rectangular(final(self).field(), final(self).spec_numx(), final(self).spec_numy()),
    ;

    /// Returns the value at (x,y)
    fn cell(&self, x: usize, y: usize) -> (c: Option<u8>)
        requires
            self.inv(),
        ensures
            c is Some <==> (x < self.spec_numx() && y < self.spec_numy()),
            c matches Some(v) ==> v == self.field()[x as int][y as int],
    ;

    /// Returns the number of columns
    fn numx(&self) -> (n: usize)
        ensures
            n == self.spec_numx(),
    ;

    /// Returns the number of rows
    fn numy(&self) -> (n: usize)
        ensures
            n == self.spec_numy(),
    ;

    /// Returns the state of a living cell
    fn state(&self) -> (s: u8)
        ensures
            s == self.rule().spec_state(),
    ;
}

/// The living-cell image of a field read from storage.
proof fn lemma_living_image(
    g: Seq<Seq<u8>>,
    cells: Seq<u8>,
    image: Seq<usize>,
    state: u8,
    numx: int,
    numy: int,
)
    requires
        0 <= numx,
        0 <= numy,
        g == unflatten(cells, numx as nat, numy as nat),
        cells.len() == numx * numy,
        image.len() == cells.len(),
        forall|k: int| 0 <= k < cells.len() ==> #[trigger] image[k] == (if cells[k] == state {
            1usize
        } else {
            0usize
        }),
    ensures
        is_binary(image),
        is_rectangular(living_cells(g, state), numx as nat, numy as nat),
        forall|a: int, b: int|
            0 <= a < numx && 0 <= b < numy ==> #[trigger] image[flat_index(numy, a, b)] as nat == bit(
                living_cells(g, state)[a][b],
            ),
{
    assert forall|a: int, b: int| 0 <= a < numx && 0 <= b < numy implies #[trigger] image[flat_index(
        numy,
        a,
        b,
    )] as nat == bit(living_cells(g, state)[a][b]) by {
        lemma_flat_index_bounds(numx, numy, a, b);
    }
}

/// Computes the time steps using ordinary iterations.
pub struct GameOfLifeStd {
    field: Grid<u8>,
    rules: Rule,
    numx: usize,
    numy: usize,
}

impl GameOfLifeStd {
    /// Counts the living neighbors of the cell at (x, y)
    pub fn count_living_neighbors(&self, x: usize, y: usize) -> (n: usize)
        requires
            self.inv(),
            x < self.spec_numx(),
            y < self.spec_numy(),
        ensures
            n == neighbor_count(
                self.rule().spec_neighbor(),
                self.field(),
                self.rule().spec_state(),
                x as int,
                y as int,
            ),
            n <= 8,
            self.rule().spec_neighbor() == NeighborRule::VonNeumann ==> n <= 4,
    {
        let ghost g = living_cells(self.field@, self.rules.spec_state());
        proof {
            lemma_neighbors_bound(g, x as int, y as int);
        }
        let state = self.rules.state();
        match self.rules.neighbor() {
            NeighborRule::Moore => {
                let right_border = if x + 1 < self.numx {
                    x + 2
                } else {
                    self.numx
                };
                let left_border = if x > 1 {
                    x - 1
                } else {
                    0
                };
                let bottom_border = if y + 1 < self.numy {
                    y + 2
                } else {
                    self.numy
                };
                let top_border = if y > 1 {
                    y - 1
                } else {
                    0
                };
                let mut sum: usize = 0;
                let mut i = left_border;
                while i < right_border
                    invariant
                        self.inv(),
                        g == living_cells(self.field@, state),
                        left_border <= i <= right_border,
                        right_border <= self.numx,
                        right_border - left_border <= 3,
                        top_border <= bottom_border <= self.numy,
                        bottom_border - top_border <= 3,
                        sum == window_count(
                            g,
                            left_border as int,
                            i as int,
                            top_border as int,
                            bottom_border as int,
                        ),
                        sum <= 3 * (i - left_border),
                    decreases right_border - i,
                {
                    let mut j = top_border;
                    let ghost before = sum;
                    while j < bottom_border
                        invariant
                            self.inv(),
                            g == living_cells(self.field@, state),
                            left_border <= i < right_border,
                            right_border <= self.numx,
                            right_border - left_border <= 3,
                            top_border <= j <= bottom_border,
                            bottom_border <= self.numy,
                            bottom_border - top_border <= 3,
                            before == window_count(
                                g,
                                left_border as int,
                                i as int,
                                top_border as int,
                                bottom_border as int,
                            ),
                            before <= 3 * (i - left_border),
                            sum == before + column_count(g, i as int, top_border as int, j as int),
                            sum <= before + (j - top_border),
                        decreases bottom_border - j,
                    {
                        if self.field.at(i, j) == state {
                            sum = sum + 1;
                        }
                        j = j + 1;
                    }
                    i = i + 1;
                }
                proof {
                    lemma_window(g, self.numx as int, self.numy as int, x as int, y as int);
                }
                if self.field.at(x, y) == state {
                    sum - 1
                } else {
                    sum
                }
            },
            NeighborRule::VonNeumann => {
                let mut sum: usize = 0;
                if x > 0 {
                    if let Some(v) = self.cell(x - 1, y) {
                        if v == state {
                            sum += 1;
                        }
                    }
                }
                if let Some(v) = self.cell(x + 1, y) {
                    if v == state {
                        sum += 1;
                    }
                }
                if y > 0 {
                    if let Some(v) = self.cell(x, y - 1) {
                        if v == state {
                            sum += 1;
                        }
                    }
                }
                if let Some(v) = self.cell(x, y + 1) {
                    if v == state {
                        sum += 1;
                    }
                }
                sum
            },
        }
    }
}

impl GameOfLifeStd {
    /// The field.
    pub fn grid(&self) -> (g: &Grid<u8>)
        requires
            self.inv(),
        ensures
            g.wf(),
            g@ == self.field(),
            g.spec_numx() == self.spec_numx(),
            g.spec_numy() == self.spec_numy(),
    {
        &self.field
    }
}

impl GameOfLife for GameOfLifeStd {
    closed spec fn field(&self) -> Seq<Seq<u8>> {
        self.field@
    }

    closed spec fn rule(&self) -> Rule {
        self.rules
    }

    closed spec fn spec_numx(&self) -> nat {
        self.numx as nat
    }

    closed spec fn spec_numy(&self) -> nat {
        self.numy as nat
    }

    closed spec fn inv(&self) -> bool {
        &&& self.field.wf()
        &&& self.field.spec_numx() == self.numx
        &&& self.field.spec_numy() == self.numy
    }

    proof fn lemma_shape(&self) {
    }

    fn new(field: Grid<u8>, rules: Rule) -> (gol: Self) {
        let numx = field.numx();
        let numy = field.numy();
        GameOfLifeStd { field, rules, numx, numy }
    }

    /// Computes the new generation
    fn compute_next_generation(&mut self) {
        let ghost g = self.field@;
        let ghost rule = self.rules;
        let state = self.rules.state();
        let mut temp = Grid::from_elem(self.numx, self.numy, 0u8);
        let mut x: usize = 0;
        while x < self.numx
            invariant
                self.inv(),
                g == self.field@,
                rule == self.rules,
                state == rule.spec_state(),
                x <= self.numx,
                temp.wf(),
                temp.spec_numx() == self.numx,
                temp.spec_numy() == self.numy,
                forall|a: int, b: int|
                    0 <= a < self.numx && 0 <= b < self.numy ==> #[trigger] temp@[a][b] == (if a < x {
                        next_states(rule, g)[a][b]
                    } else {
                        0u8
                    }),
            decreases self.numx - x,
        {
            let mut y: usize = 0;
            while y < self.numy
                invariant
                    self.inv(),
                    g == self.field@,
                    rule == self.rules,
                    state == rule.spec_state(),
                    x < self.numx,
                    y <= self.numy,
                    temp.wf(),
                    temp.spec_numx() == self.numx,
                    temp.spec_numy() == self.numy,
                    forall|a: int, b: int|
                        0 <= a < self.numx && 0 <= b < self.numy ==> #[trigger] temp@[a][b] == (if a < x
                            || (a == x && b < y) {
                            next_states(rule, g)[a][b]
                        } else {
                            0u8
                        }),
                decreases self.numy - y,
            {
                let count = self.count_living_neighbors(x, y);
                proof {
                    lemma_neighbors_bound(living_cells(g, state), x as int, y as int);
                    rule.lemma_tables();
                }
                let v = self.field.at(x, y);
                if v == 0 {
                    if self.rules.birth[count] {
                        temp.set(x, y, state);
                    }
                } else if v == state && self.rules.survival[count] {
                    temp.set(x, y, state);
                } else {
                    temp.set(x, y, v - 1);
                }
                y = y + 1;
            }
            x = x + 1;
        }
        self.field = temp;
        proof {
            assert(self.field@ =~= next_states(rule, g)) by {
                assert forall|a: int| 0 <= a < self.numx implies #[trigger] self.field@[a] =~= next_states(
                    rule,
                    g,
                )[a] by {}
            }
        }
    }

    fn cell(&self, x: usize, y: usize) -> (c: Option<u8>) {
        self.field.get(x, y)
    }

    fn numx(&self) -> (n: usize) {
        self.numx
    }

    fn numy(&self) -> (n: usize) {
        self.numy
    }

    fn state(&self) -> (s: u8) {
        self.rules.state()
    }
}

/// Computes the time steps using `ndarray_ndimage`'s `convolve`.
pub struct GameOfLifeConvolution {
    field: Grid<u8>,
    rules: Rule,
    numx: usize,
    numy: usize,
}

impl GameOfLifeConvolution {
    /// The field.
    pub fn grid(&self) -> (g: &Grid<u8>)
        requires
            self.inv(),
        ensures
            g.wf(),
            g@ == self.field(),
            g.spec_numx() == self.spec_numx(),
            g.spec_numy() == self.spec_numy(),
    {
        &self.field
    }
}

impl GameOfLife for GameOfLifeConvolution {
    closed spec fn field(&self) -> Seq<Seq<u8>> {
        self.field@
    }

    closed spec fn rule(&self) -> Rule {
        self.rules
    }

    closed spec fn spec_numx(&self) -> nat {
        self.numx as nat
    }

    closed spec fn spec_numy(&self) -> nat {
        self.numy as nat
    }

    closed spec fn inv(&self) -> bool {
        &&& self.field.wf()
        &&& self.field.spec_numx() == self.numx
        &&& self.field.spec_numy() == self.numy
    }

    proof fn lemma_shape(&self) {
    }

    fn new(field: Grid<u8>, rules: Rule) -> (gol: Self) {
        let numx = field.numx();
        let numy = field.numy();
        GameOfLifeConvolution { field, rules, numx, numy }
    }

    fn compute_next_generation(&mut self) {
        let ghost g = self.field@;
        let ghost rule = self.rules;
        if self.numx == 0 || self.numy == 0 {
            proof {
                assert(self.field@ =~= next_states(rule, g)) by {
                    assert forall|a: int| 0 <= a < self.numx implies #[trigger] self.field@[a] =~= next_states(
                        rule,
                        g,
                    )[a] by {}
                }
            }
            return;
        }
        let numx = self.numx;
        let numy = self.numy;
        let state = self.rules.state();
        let cells = self.field.storage();
        let total = cells.len();
        let mut image: Vec<usize> = Vec::new();
        let mut i: usize = 0;
        while i < total
            invariant
                total == cells@.len(),
                i <= total,
                image@.len() == i,
                forall|k: int| 0 <= k < i ==> #[trigger] image@[k] == (if cells@[k] == state {
                    1usize
                } else {
                    0usize
                }),
            decreases total - i,
        {
            if cells[i] == state {
                image.push(1);
            } else {
                image.push(0);
            }
            i = i + 1;
        }
        let ghost living = living_cells(g, state);
        proof {
            lemma_living_image(g, cells@, image@, state, numx as int, numy as int);
        }
        let kernel = match self.rules.neighbor() {
            NeighborRule::Moore => moore_kernel_vec(),
            NeighborRule::VonNeumann => von_neumann_kernel_vec(),
        };
        let counts = convolve_3x3(&image, numx, numy, &kernel);
        proof {
            assert forall|a: int, b: int| 0 <= a < numx && 0 <= b < numy implies #[trigger] counts@[flat_index(
                numy as int,
                a,
                b,
            )] == neighbor_count(rule.spec_neighbor(), g, state, a, b) by {
                lemma_convolution_counts_neighbors(living, image@, numx as int, numy as int, a, b);
            }
        }
        let mut x: usize = 0;
        while x < numx
            invariant
                numx == self.numx,
                numy == self.numy,
                self.inv(),
                rule == self.rules,
                state == rule.spec_state(),
                x <= numx,
                g.len() == numx,
                is_rectangular(g, numx as nat, numy as nat),
                counts@.len() == numx * numy,
                numx * numy <= usize::MAX,
                forall|a: int, b: int|
                    0 <= a < numx && 0 <= b < numy ==> #[trigger] counts@[flat_index(numy as int, a, b)]
                        == neighbor_count(rule.spec_neighbor(), g, state, a, b),
                forall|a: int, b: int|
                    0 <= a < numx && 0 <= b < numy ==> #[trigger] self.field@[a][b] == (if a < x {
                        next_states(rule, g)[a][b]
                    } else {
                        g[a][b]
                    }),
            decreases numx - x,
        {
            let mut y: usize = 0;
            while y < numy
                invariant
                    numx == self.numx,
                    numy == self.numy,
                    self.inv(),
                    rule == self.rules,
                    state == rule.spec_state(),
                    x < numx,
                    y <= numy,
                    g.len() == numx,
                    is_rectangular(g, numx as nat, numy as nat),
                    counts@.len() == numx * numy,
                    numx * numy <= usize::MAX,
                    forall|a: int, b: int|
                        0 <= a < numx && 0 <= b < numy ==> #[trigger] counts@[flat_index(
                            numy as int,
                            a,
                            b,
                        )] == neighbor_count(rule.spec_neighbor(), g, state, a, b),
                    forall|a: int, b: int|
                        0 <= a < numx && 0 <= b < numy ==> #[trigger] self.field@[a][b] == (if a < x || (a
                            == x && b < y) {
                            next_states(rule, g)[a][b]
                        } else {
                            g[a][b]
                        }),
                decreases numy - y,
            {
                proof {
                    lemma_flat_index_bounds(numx as int, numy as int, x as int, y as int);
                    lemma_neighbors_bound(living_cells(g, state), x as int, y as int);
                    rule.lemma_tables();
                }
                let count = counts[x * numy + y];
                let v = self.field.at(x, y);
                if v == 0 {
                    if self.rules.birth[count] {
                        self.field.set(x, y, state);
                    }
                } else if v == state && self.rules.survival[count] {
                    self.field.set(x, y, state);
                } else {
                    self.field.set(x, y, v - 1);
                }
                y = y + 1;
            }
            x = x + 1;
        }
        proof {
            assert(self.field@ =~= next_states(rule, g)) by {
                assert forall|a: int| 0 <= a < self.numx implies #[trigger] self.field@[a] =~= next_states(
                    rule,
                    g,
                )[a] by {}
            }
        }
    }

    fn cell(&self, x: usize, y: usize) -> (c: Option<u8>) {
        self.field.get(x, y)
    }

    fn numx(&self) -> (n: usize) {
        self.numx
    }

    fn numy(&self) -> (n: usize) {
        self.numy
    }

    fn state(&self) -> (s: u8) {
        self.rules.state()
    }
}

} // verus!
