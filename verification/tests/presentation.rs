use gameoflife::game_of_life::{self as conway, plot_cell, GameOfLife as ConwayGame};
use gameoflife::gameoflife::{GameOfLife, GameOfLifeConvolution, NeighborRule, Rule};
use gameoflife::grid::Grid;
use gameoflife::presentation::{
    bottom_border, field_row, get_size, gif_frame_delay, gif_frame_pixels, life_row,
    pixel_intensity, polling_plan, sleep_after_check, top_border, Presentations,
};

#[test]
fn presentation_names() {
    assert_eq!(Presentations::Gif.name(), "GIF");
    assert_eq!(Presentations::Tui.name(), "TUI");
}

#[test]
fn pixel_brightness() {
    assert_eq!(pixel_intensity(0, 1), 0);
    assert_eq!(pixel_intensity(1, 1), 255);
    assert_eq!(pixel_intensity(1, 3), 85);
    assert_eq!(pixel_intensity(2, 3), 170);
    assert_eq!(pixel_intensity(7, 3), 255);
    assert_eq!(pixel_intensity(0, 0), 0);
    assert_eq!(pixel_intensity(4, 0), 255);
    // the same numbers as the single-precision computation of a GIF frame
    for cell in 0..=255u8 {
        for state in 0..=255u8 {
            let float = (255.0f32 * cell as f32 / state as f32) as u8;
            assert_eq!(pixel_intensity(cell, state), float, "{cell} {state}");
        }
    }
}

#[test]
fn gif_frame_of_a_field() {
    let rule = Rule::new([false; 9], [false; 9], 2, NeighborRule::Moore);
    let gol = GameOfLifeConvolution::new(
        Grid::from_rows(vec![vec![2, 0, 1], vec![0, 1, 2]]).unwrap(),
        rule,
    );
    // two columns and three rows, row by row
    let pixels = gif_frame_pixels(&gol);
    assert_eq!(
        pixels,
        vec![255, 255, 255, 0, 0, 0, 0, 0, 0, 127, 127, 127, 127, 127, 127, 255, 255, 255]
    );
    assert_eq!(gol.numx(), 2);
}

#[test]
fn gif_frame_delays() {
    assert_eq!(gif_frame_delay(500), 50);
    assert_eq!(gif_frame_delay(9), 0);
    assert_eq!(gif_frame_delay(70_000), 7000);
    assert_eq!(gif_frame_delay(655_350), 65535);
    assert_eq!(gif_frame_delay(10_000_000), 65535);
}

#[test]
fn polling_plans() {
    assert_eq!(polling_plan(500), (3, 100));
    assert_eq!(polling_plan(199), (1, 199));
    assert_eq!(polling_plan(0), (1, 0));
    assert_eq!(polling_plan(400), (3, 0));
}

#[test]
fn field_sizes() {
    assert_eq!(get_size(Some(5), Some(6), Some((80, 24))), (5, 6));
    assert_eq!(get_size(None, None, Some((80, 24))), (78, 22));
    assert_eq!(get_size(None, Some(3), Some((2, 2))), (0, 3));
    assert_eq!(get_size(None, None, None), (10, 10));
    assert_eq!(get_size(Some(7), Some(5), Some((1, 1))), (7, 5));
    assert_eq!(get_size(Some(7), None, Some((0, 9))), (7, 7));
}

#[test]
fn terminal_text() {
    assert_eq!(top_border(3), "┌───┐");
    assert_eq!(bottom_border(0), "└┘");
    let rule = Rule::new([false; 9], [false; 9], 3, NeighborRule::Moore);
    let gol = GameOfLifeConvolution::new(
        Grid::from_rows(vec![vec![3, 0], vec![1, 0], vec![0, 2]]).unwrap(),
        rule,
    );
    assert_eq!(field_row(&gol, 0), "▒▒ ");
    assert_eq!(field_row(&gol, 1), "  ▒");
    let classic = conway::GameOfLifeStd::new(
        Grid::from_rows(vec![vec![true, false], vec![false, false]]).unwrap(),
    );
    assert_eq!(life_row(&classic, 0), "▒ ");
    assert_eq!(life_row(&classic, 1), "  ");
    assert_eq!(classic.numy(), 2);
}

#[test]
fn plot_cells() {
    assert_eq!(plot_cell(7, 3, 3), (1, 2));
    assert_eq!(plot_cell(5, 4, 2), (1, 1));
    // a field of two columns and one row: both cells are drawn
    assert_eq!(plot_cell(0, 2, 1), (0, 0));
    assert_eq!(plot_cell(1, 2, 1), (1, 0));
    let mut seen = std::collections::HashSet::new();
    for id in 0..3 * 5 {
        let (x, y) = plot_cell(id, 3, 5);
        assert!(x < 3 && y < 5);
        assert!(seen.insert((x, y)));
    }
}

#[test]
fn sleeps_after_key_checks_add_up() {
    for millis in [0u128, 150, 200, 450, 1000] {
        let (checks, remaining) = polling_plan(millis);
        let total: u128 = (0..checks).map(|c| sleep_after_check(c, checks, remaining)).sum();
        assert_eq!(total, millis);
    }
    assert_eq!(sleep_after_check(0, 3, 50), 200);
    assert_eq!(sleep_after_check(2, 3, 50), 50);
    assert_eq!(sleep_after_check(0, 0, 7), 7);
}
