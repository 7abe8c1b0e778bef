use gameoflife::game_of_life::{GameOfLife, GameOfLifeConvolution, GameOfLifeStd};
use gameoflife::grid::Grid;
use rand::Rng;

fn grid_of(rows: Vec<Vec<bool>>) -> Grid<bool> {
    Grid::from_rows(rows).unwrap()
}

fn full_3x3() -> Grid<bool> {
    grid_of(vec![
        vec![true, true, true],
        vec![true, true, true],
        vec![true, true, true],
    ])
}

#[test]
fn game_of_life_count_living_neighbors() {
    let gol = GameOfLifeStd::new(full_3x3());

    let mut temp = vec![vec![0u8; 3]; 3];
    for x in 0..3 {
        for y in 0..3 {
            temp[x][y] = gol.count_living_neighbors(x, y);
        }
    }

    assert_eq!(temp, vec![vec![3, 5, 3], vec![5, 8, 5], vec![3, 5, 3]]);
}

#[test]
fn game_of_life_compute_next_generation_std() {
    let mut gol = GameOfLifeStd::new(full_3x3());

    gol.compute_next_generation();
    let temp = gol.grid().to_rows();

    assert_eq!(
        temp,
        vec![
            vec![true, false, true],
            vec![false, false, false],
            vec![true, false, true]
        ]
    );
}

#[test]
fn game_of_life_compute_next_generation_conv() {
    let mut gol = GameOfLifeConvolution::new(full_3x3());

    gol.compute_next_generation();

    assert_eq!(
        gol.grid().to_rows(),
        vec![
            vec![true, false, true],
            vec![false, false, false],
            vec![true, false, true]
        ]
    );
}

#[test]
fn game_of_life_algorithms() {
    let mut rng = rand::thread_rng();

    let numx: usize = 10;
    let numy: usize = 10;
    let field_vec_std: Vec<bool> = (0..numx * numy).map(|_| rng.gen_bool(0.3)).collect();
    let field_vec_conv = field_vec_std.clone();

    let field_std = Grid::from_shape_vec(numx, numy, field_vec_std).unwrap();
    let field_conv = Grid::from_shape_vec(numx, numy, field_vec_conv).unwrap();

    let mut gol_std = GameOfLifeStd::new(field_std);
    let mut gol_conv = GameOfLifeConvolution::new(field_conv);

    assert!(
        gol_std.grid().to_rows() == gol_conv.grid().to_rows(),
        "standard and convolution differ"
    );

    gol_std.compute_next_generation();
    gol_conv.compute_next_generation();

    assert!(
        gol_std.grid().to_rows() == gol_conv.grid().to_rows(),
        "standard and convolution differ after one iteration"
    );
}

fn blinker() -> Grid<bool> {
    // a vertical bar in the middle column of a 5 by 5 field
    let mut rows = vec![vec![false; 5]; 5];
    rows[2][1] = true;
    rows[2][2] = true;
    rows[2][3] = true;
    grid_of(rows)
}

#[test]
fn blinker_has_period_two() {
    for conv in [false, true] {
        let start = blinker().to_rows();
        let mut horizontal = vec![vec![false; 5]; 5];
        horizontal[1][2] = true;
        horizontal[2][2] = true;
        horizontal[3][2] = true;
        if conv {
            let mut gol = GameOfLifeConvolution::new(blinker());
            gol.compute_next_generation();
            assert_eq!(gol.grid().to_rows(), horizontal);
            gol.compute_next_generation();
            assert_eq!(gol.grid().to_rows(), start);
        } else {
            let mut gol = GameOfLifeStd::new(blinker());
            gol.compute_next_generation();
            assert_eq!(gol.grid().to_rows(), horizontal);
            gol.compute_next_generation();
            assert_eq!(gol.grid().to_rows(), start);
        }
    }
}

#[test]
fn block_is_a_still_life() {
    let rows = vec![
        vec![false, false, false, false],
        vec![false, true, true, false],
        vec![false, true, true, false],
        vec![false, false, false, false],
    ];
    let mut gol_std = GameOfLifeStd::new(grid_of(rows.clone()));
    let mut gol_conv = GameOfLifeConvolution::new(grid_of(rows.clone()));
    for _ in 0..3 {
        gol_std.compute_next_generation();
        gol_conv.compute_next_generation();
        assert_eq!(gol_std.grid().to_rows(), rows);
        assert_eq!(gol_conv.grid().to_rows(), rows);
    }
}

#[test]
fn dead_field_stays_dead() {
    let rows = vec![vec![false; 4]; 3];
    let mut gol_std = GameOfLifeStd::new(grid_of(rows.clone()));
    let mut gol_conv = GameOfLifeConvolution::new(grid_of(rows.clone()));
    gol_std.compute_next_generation();
    gol_conv.compute_next_generation();
    assert_eq!(gol_std.grid().to_rows(), rows);
    assert_eq!(gol_conv.grid().to_rows(), rows);
}

#[test]
fn lonely_cell_dies_and_edges_count_as_dead() {
    let mut gol = GameOfLifeConvolution::new(grid_of(vec![vec![true]]));
    assert_eq!(gol.numx(), 1);
    assert_eq!(gol.numy(), 1);
    assert!(gol.cell(0, 0));
    gol.compute_next_generation();
    assert!(!gol.cell(0, 0));

    let gol = GameOfLifeStd::new(grid_of(vec![vec![true, true], vec![true, false]]));
    assert_eq!(gol.count_living_neighbors(1, 1), 3);
    assert_eq!(gol.count_living_neighbors(0, 0), 2);
}

#[test]
fn empty_field_has_no_generation_to_compute() {
    let mut gol = GameOfLifeConvolution::new(Grid::from_shape_vec(0, 4, Vec::new()).unwrap());
    gol.compute_next_generation();
    assert_eq!(gol.numx(), 0);
    assert_eq!(gol.numy(), 4);
    let mut gol = GameOfLifeStd::new(Grid::from_shape_vec(3, 0, Vec::new()).unwrap());
    gol.compute_next_generation();
    assert_eq!(gol.numx(), 3);
    assert_eq!(gol.numy(), 0);
}

#[test]
fn non_square_field_keeps_its_shape() {
    let rows = vec![
        vec![false, true, false, false, false, false, false],
        vec![false, true, false, false, false, true, true],
        vec![false, true, false, false, false, true, true],
    ];
    let mut gol_std = GameOfLifeStd::new(grid_of(rows.clone()));
    let mut gol_conv = GameOfLifeConvolution::new(grid_of(rows));
    gol_std.compute_next_generation();
    gol_conv.compute_next_generation();
    assert_eq!(gol_std.numx(), 3);
    assert_eq!(gol_std.numy(), 7);
    assert_eq!(gol_std.grid().to_rows(), gol_conv.grid().to_rows());
    assert_eq!(
        gol_std.grid().to_rows(),
        vec![
            vec![false, false, false, false, false, false, false],
            vec![true, true, true, false, false, true, true],
            vec![false, false, false, false, false, true, true],
        ]
    );
}
