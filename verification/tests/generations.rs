use gameoflife::game_of_life::{self as conway, GameOfLife as ConwayGame};
use gameoflife::gameoflife::{
    GameOfLife, GameOfLifeConvolution, GameOfLifeStd, NeighborRule, Rule,
};
use gameoflife::grid::Grid;
use rand::Rng;

fn conway_rule() -> Rule {
    Rule::new(
        [false, false, true, true, false, false, false, false, false],
        [false, false, false, true, false, false, false, false, false],
        1,
        NeighborRule::Moore,
    )
}

fn grid_of(rows: Vec<Vec<u8>>) -> Grid<u8> {
    Grid::from_rows(rows).unwrap()
}

#[test]
fn gameoflife_count_living_neighbors() {
    let arr = grid_of(vec![vec![1, 1, 1], vec![1, 1, 1], vec![1, 1, 1]]);
    let rules = Rule::new(
        [false, false, true, true, false, false, false, false, false],
        [false, false, false, true, false, false, false, false, false],
        1,
        NeighborRule::Moore,
    );
    let gol = GameOfLifeStd::new(arr, rules);

    let mut temp = vec![vec![0usize; 3]; 3];
    for x in 0..3 {
        for y in 0..3 {
            temp[x][y] = gol.count_living_neighbors(x, y);
        }
    }

    assert_eq!(temp, vec![vec![3, 5, 3], vec![5, 8, 5], vec![3, 5, 3]]);
}

#[test]
fn gameoflife_compute_next_generation_std() {
    let arr = grid_of(vec![vec![1, 1, 1], vec![1, 1, 1], vec![1, 1, 1]]);
    let rules = Rule::new(
        [false, false, true, true, false, false, false, false, false],
        [false, false, false, true, false, false, false, false, false],
        1,
        NeighborRule::Moore,
    );
    let mut gol = GameOfLifeStd::new(arr, rules);

    gol.compute_next_generation();
    let temp = gol.grid().to_rows();

    assert_eq!(temp, vec![vec![1, 0, 1], vec![0, 0, 0], vec![1, 0, 1]]);
}

#[test]
fn gameoflife_compute_next_generation_conv() {
    let arr = grid_of(vec![vec![1, 1, 1], vec![1, 1, 1], vec![1, 1, 1]]);
    let rules = Rule::new(
        [false, false, true, true, false, false, false, false, false],
        [false, false, false, true, false, false, false, false, false],
        1,
        NeighborRule::Moore,
    );
    let mut gol = GameOfLifeConvolution::new(arr, rules);

    gol.compute_next_generation();

    assert_eq!(gol.grid().to_rows(), vec![vec![1, 0, 1], vec![0, 0, 0], vec![1, 0, 1]]);
}

#[test]
fn gameoflife_algorithms() {
    let mut rng = rand::thread_rng();

    let numx: usize = 10;
    let numy: usize = 10;
    let field_vec_std: Vec<u8> = (0..numx * numy).map(|_| rng.gen_bool(0.3) as u8).collect();
    let field_vec_conv = field_vec_std.clone();

    let field_std = Grid::from_shape_vec(numx, numy, field_vec_std).unwrap();
    let field_conv = Grid::from_shape_vec(numx, numy, field_vec_conv).unwrap();

    let rules_std = Rule::new(
        [false, false, true, true, false, false, false, false, false],
        [false, false, false, true, false, false, false, false, false],
        1,
        NeighborRule::Moore,
    );
    let rules_conv = rules_std.clone();

    let mut gol_std = GameOfLifeStd::new(field_std, rules_std);
    let mut gol_conv = GameOfLifeConvolution::new(field_conv, rules_conv);

    assert!(
        gol_std.grid().to_rows() == gol_conv.grid().to_rows(),
        "standard and convolution differ"
    );

    gol_std.compute_next_generation();
    gol_conv.compute_next_generation();

    assert!(
        gol_std.grid().to_rows() == gol_conv.grid().to_rows(),
        "standard and convolution differ after one iteration"
    );
}

fn random_states(numx: usize, numy: usize, state: u8) -> Vec<u8> {
    let mut rng = rand::thread_rng();
    (0..numx * numy).map(|_| rng.gen_range(0..=state)).collect()
}

#[test]
fn algorithms_agree_for_every_rule_kind() {
    let mut rng = rand::thread_rng();
    for neighbor in [NeighborRule::Moore, NeighborRule::VonNeumann] {
        for _ in 0..20 {
            let state: u8 = rng.gen_range(1..=4);
            let mut survival = [false; 9];
            let mut birth = [false; 9];
            for n in 0..9 {
                survival[n] = rng.gen_bool(0.4);
                birth[n] = rng.gen_bool(0.3);
            }
            let rule = Rule::new(survival, birth, state, neighbor);
            let (numx, numy) = (rng.gen_range(1..9), rng.gen_range(1..9));
            let cells = random_states(numx, numy, state);
            let mut gol_std = GameOfLifeStd::new(Grid::from_shape_vec(numx, numy, cells.clone()).unwrap(), rule);
            let mut gol_conv = GameOfLifeConvolution::new(Grid::from_shape_vec(numx, numy, cells).unwrap(), rule);
            for _ in 0..3 {
                gol_std.compute_next_generation();
                gol_conv.compute_next_generation();
                assert_eq!(gol_std.grid().to_rows(), gol_conv.grid().to_rows());
                for row in gol_std.grid().to_rows() {
                    assert!(row.iter().all(|v| *v <= state));
                }
            }
        }
    }
}

#[test]
fn von_neumann_counts_cells_that_share_a_side() {
    // state 2: a cell holding 1 is dying and does not count as living
    let rule = Rule::new([false; 9], [false; 9], 2, NeighborRule::VonNeumann);
    let gol = GameOfLifeStd::new(
        grid_of(vec![vec![2, 2, 0], vec![2, 2, 1], vec![0, 2, 2]]),
        rule,
    );
    assert_eq!(gol.count_living_neighbors(1, 1), 3);
    assert_eq!(gol.count_living_neighbors(0, 0), 2);
    assert_eq!(gol.count_living_neighbors(2, 2), 1);
    assert_eq!(gol.count_living_neighbors(0, 2), 1);
}

#[test]
fn cells_lose_one_state_per_generation() {
    // nothing is born and nothing survives: every cell decays to 0
    let rule = Rule::new([false; 9], [false; 9], 3, NeighborRule::Moore);
    let mut gol = GameOfLifeConvolution::new(grid_of(vec![vec![3, 2], vec![1, 0]]), rule);
    assert_eq!(gol.state(), 3);
    gol.compute_next_generation();
    assert_eq!(gol.grid().to_rows(), vec![vec![2, 1], vec![0, 0]]);
    gol.compute_next_generation();
    assert_eq!(gol.grid().to_rows(), vec![vec![1, 0], vec![0, 0]]);
    gol.compute_next_generation();
    assert_eq!(gol.grid().to_rows(), vec![vec![0, 0], vec![0, 0]]);
}

#[test]
fn birth_with_no_neighbors_fills_an_empty_field() {
    let mut birth = [false; 9];
    birth[0] = true;
    let rule = Rule::new([false; 9], birth, 5, NeighborRule::VonNeumann);
    let mut gol = GameOfLifeStd::new(grid_of(vec![vec![0, 0, 0]]), rule);
    gol.compute_next_generation();
    assert_eq!(gol.grid().to_rows(), vec![vec![5, 5, 5]]);
    assert_eq!(gol.cell(0, 2), Some(5));
    assert_eq!(gol.cell(1, 0), None);
    assert_eq!(gol.cell(0, 3), None);
}

#[test]
fn default_rule_is_conways_game() {
    let mut rng = rand::thread_rng();
    let (numx, numy) = (8usize, 6usize);
    let bools: Vec<bool> = (0..numx * numy).map(|_| rng.gen_bool(0.4)).collect();
    let states: Vec<u8> = bools.iter().map(|b| *b as u8).collect();
    let mut classic = conway::GameOfLifeStd::new(Grid::from_shape_vec(numx, numy, bools).unwrap());
    let mut general = GameOfLifeConvolution::new(
        Grid::from_shape_vec(numx, numy, states).unwrap(),
        Rule::default(),
    );
    for _ in 0..4 {
        classic.compute_next_generation();
        general.compute_next_generation();
        let expected: Vec<Vec<u8>> = classic
            .grid()
            .to_rows()
            .iter()
            .map(|col| col.iter().map(|b| *b as u8).collect())
            .collect();
        assert_eq!(general.grid().to_rows(), expected);
    }
    let default = Rule::default();
    assert_eq!(default.state(), 1);
    assert_eq!(default.neighbor(), NeighborRule::Moore);
    assert_eq!(conway_rule().state(), 1);
}

#[test]
fn birth_counts_do_not_keep_living_cells_alive() {
    // B36/S23: the living centre has six living neighbours, which is no survival count
    let rule = Rule::new(
        [false, false, true, true, false, false, false, false, false],
        [false, false, false, true, false, false, true, false, false],
        1,
        NeighborRule::Moore,
    );
    let field = vec![vec![1, 1, 1], vec![1, 1, 1], vec![1, 0, 0]];
    let mut gol_std = GameOfLifeStd::new(grid_of(field.clone()), rule);
    let mut gol_conv = GameOfLifeConvolution::new(grid_of(field), rule);
    gol_std.compute_next_generation();
    gol_conv.compute_next_generation();
    assert_eq!(gol_std.cell(1, 1), Some(0));
    assert_eq!(gol_conv.cell(1, 1), Some(0));
}

#[test]
fn dying_cells_are_not_revived_by_birth_counts() {
    // every count is a birth count, none a survival count
    let rule = Rule::new([false; 9], [true; 9], 3, NeighborRule::VonNeumann);
    let mut gol = GameOfLifeStd::new(grid_of(vec![vec![3, 2, 1, 0]]), rule);
    gol.compute_next_generation();
    assert_eq!(gol.grid().to_rows(), vec![vec![2, 1, 0, 3]]);
    let mut survival = [false; 9];
    survival[1] = true;
    let rule = Rule::new(survival, [false; 9], 2, NeighborRule::VonNeumann);
    let mut gol = GameOfLifeConvolution::new(grid_of(vec![vec![2, 2, 1]]), rule);
    gol.compute_next_generation();
    assert_eq!(gol.grid().to_rows(), vec![vec![2, 2, 0]]);
}
