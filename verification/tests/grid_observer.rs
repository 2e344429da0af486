use tictactoe::game::grid::Grid;
use tictactoe::game::grid_observer::check_winner;
use tictactoe::game::{GameState, PlayerId};

#[test]
fn test_check_winner_horizontal_first_row() {
    let mut grid = Grid::new(9, 9, 4);
    grid.set_cell(0, 1, PlayerId(1));
    grid.set_cell(0, 2, PlayerId(1));
    grid.set_cell(0, 3, PlayerId(1));
    grid.set_cell(0, 4, PlayerId(1));
    assert!(check_winner(&grid).is_some());
}

#[test]
fn test_check_winner_horizontal_middle_row() {
    let mut grid = Grid::new(9, 9, 4);
    grid.set_cell(3, 1, PlayerId(1));
    grid.set_cell(3, 2, PlayerId(1));
    grid.set_cell(3, 3, PlayerId(1));
    grid.set_cell(3, 4, PlayerId(1));
    assert!(check_winner(&grid).is_some());
}

#[test]
fn test_check_winner_horizontal_last_row() {
    let mut grid = Grid::new(9, 9, 4);
    grid.set_cell(8, 1, PlayerId(1));
    grid.set_cell(8, 2, PlayerId(1));
    grid.set_cell(8, 3, PlayerId(1));
    grid.set_cell(8, 4, PlayerId(1));
    assert!(check_winner(&grid).is_some());
}

#[test]
fn test_check_winner_vertical_first_column() {
    let mut grid = Grid::new(9, 9, 4);
    grid.set_cell(0, 0, PlayerId(1));
    grid.set_cell(1, 0, PlayerId(1));
    grid.set_cell(2, 0, PlayerId(1));
    grid.set_cell(3, 0, PlayerId(1));
    assert!(check_winner(&grid).is_some());
}

#[test]
fn test_check_winner_vertical_middle_column() {
    let mut grid = Grid::new(9, 9, 4);
    grid.set_cell(0, 3, PlayerId(1));
    grid.set_cell(1, 3, PlayerId(1));
    grid.set_cell(2, 3, PlayerId(1));
    grid.set_cell(3, 3, PlayerId(1));
    assert!(check_winner(&grid).is_some());
}

#[test]
fn test_check_winner_vertical_last_column() {
    let mut grid = Grid::new(9, 9, 4);
    grid.set_cell(0, 8, PlayerId(1));
    grid.set_cell(1, 8, PlayerId(1));
    grid.set_cell(2, 8, PlayerId(1));
    grid.set_cell(3, 8, PlayerId(1));
    assert!(check_winner(&grid).is_some());
}

#[test]
fn test_check_winner_top_down_diagonal_corner_start() {
    let mut grid = Grid::new(9, 9, 4);
    grid.set_cell(0, 0, PlayerId(1));
    grid.set_cell(1, 1, PlayerId(1));
    grid.set_cell(2, 2, PlayerId(1));
    grid.set_cell(3, 3, PlayerId(1));
    assert!(check_winner(&grid).is_some());
}

#[test]
fn test_check_winner_top_down_diagonal_left_side_start() {
    let mut grid = Grid::new(9, 9, 4);
    grid.set_cell(2, 0, PlayerId(1));
    grid.set_cell(3, 1, PlayerId(1));
    grid.set_cell(4, 2, PlayerId(1));
    grid.set_cell(5, 3, PlayerId(1));
    assert!(check_winner(&grid).is_some());
}

#[test]
fn test_check_winner_top_down_diagonal_top_start() {
    let mut grid = Grid::new(9, 9, 4);
    grid.set_cell(0, 2, PlayerId(1));
    grid.set_cell(1, 3, PlayerId(1));
    grid.set_cell(2, 4, PlayerId(1));
    grid.set_cell(3, 5, PlayerId(1));
    assert!(check_winner(&grid).is_some());
}

#[test]
fn test_check_winner_top_down_diagonal_middle_start() {
    let mut grid = Grid::new(9, 9, 4);
    grid.set_cell(1, 2, PlayerId(1));
    grid.set_cell(2, 3, PlayerId(1));
    grid.set_cell(3, 4, PlayerId(1));
    grid.set_cell(4, 5, PlayerId(1));
    assert!(check_winner(&grid).is_some());
}

#[test]
fn test_check_winner_bottom_up_diagonal_corner_start() {
    let mut grid = Grid::new(9, 9, 4);
    grid.set_cell(8, 0, PlayerId(1));
    grid.set_cell(7, 1, PlayerId(1));
    grid.set_cell(6, 2, PlayerId(1));
    grid.set_cell(5, 3, PlayerId(1));
    assert!(check_winner(&grid).is_some());
}

#[test]
fn test_check_winner_bottom_up_diagonal_bottom_start() {
    let mut grid = Grid::new(9, 9, 4);
    grid.set_cell(8, 2, PlayerId(1));
    grid.set_cell(7, 3, PlayerId(1));
    grid.set_cell(6, 4, PlayerId(1));
    grid.set_cell(5, 5, PlayerId(1));
    assert!(check_winner(&grid).is_some());
}

#[test]
fn test_check_winner_no_winner() {
    let mut grid = Grid::new(9, 9, 4);
    grid.set_cell(1, 8, PlayerId(1));
    grid.set_cell(2, 8, PlayerId(1));
    grid.set_cell(3, 8, PlayerId(2));
    grid.set_cell(4, 8, PlayerId(1));
    assert!(check_winner(&grid).is_none());
}

#[test]
fn test_fresh_board_in_progress() {
    let grid = Grid::new(3, 3, 3);
    assert!(matches!(check_winner(&grid), GameState::Mid));
    let large = Grid::new(9, 9, 4);
    assert!(matches!(check_winner(&large), GameState::Mid));
}

#[test]
fn test_gap_breaks_the_run() {
    let mut grid = Grid::new(9, 9, 4);
    grid.set_cell(0, 1, PlayerId(1));
    grid.set_cell(0, 2, PlayerId(1));
    grid.set_cell(0, 3, PlayerId(1));
    grid.set_cell(1, 4, PlayerId(1));
    assert!(matches!(check_winner(&grid), GameState::Mid));
}

#[test]
fn test_winner_identity_reported() {
    let mut grid = Grid::new(9, 9, 4);
    grid.set_cell(5, 2, PlayerId(7));
    grid.set_cell(5, 3, PlayerId(7));
    grid.set_cell(5, 4, PlayerId(7));
    grid.set_cell(5, 5, PlayerId(7));
    match check_winner(&grid) {
        GameState::Win(PlayerId(id)) => assert_eq!(7, id),
        _ => panic!("a completed run must name its owner"),
    }
}

#[test]
fn test_horizontal_scan_precedes_vertical() {
    let mut grid = Grid::new(9, 9, 4);
    grid.set_cell(5, 1, PlayerId(1));
    grid.set_cell(5, 2, PlayerId(1));
    grid.set_cell(5, 3, PlayerId(1));
    grid.set_cell(5, 4, PlayerId(1));
    grid.set_cell(0, 8, PlayerId(2));
    grid.set_cell(1, 8, PlayerId(2));
    grid.set_cell(2, 8, PlayerId(2));
    grid.set_cell(3, 8, PlayerId(2));
    // both participants hold a win, so the evaluation order decides: the
    // horizontal scan runs first and names its winner
    assert_eq!(GameState::Win(PlayerId(1)), check_winner(&grid));
}

#[test]
fn test_first_found_row_names_winner() {
    let mut grid = Grid::new(9, 9, 4);
    grid.set_cell(5, 0, PlayerId(7));
    grid.set_cell(5, 1, PlayerId(7));
    grid.set_cell(5, 2, PlayerId(7));
    grid.set_cell(5, 3, PlayerId(7));
    grid.set_cell(2, 4, PlayerId(3));
    grid.set_cell(2, 5, PlayerId(3));
    grid.set_cell(2, 6, PlayerId(3));
    grid.set_cell(2, 7, PlayerId(3));
    // two full rows: the scan walks rows top down, so the run in the
    // earlier row names the winner
    assert_eq!(GameState::Win(PlayerId(3)), check_winner(&grid));
}

#[test]
fn test_full_board_draw() {
    let mut grid = Grid::new(3, 3, 3);
    grid.set_cell(0, 0, PlayerId(1));
    grid.set_cell(0, 1, PlayerId(2));
    grid.set_cell(0, 2, PlayerId(1));
    grid.set_cell(1, 0, PlayerId(1));
    grid.set_cell(1, 1, PlayerId(2));
    grid.set_cell(1, 2, PlayerId(2));
    grid.set_cell(2, 0, PlayerId(2));
    grid.set_cell(2, 1, PlayerId(1));
    grid.set_cell(2, 2, PlayerId(1));
    assert!(matches!(check_winner(&grid), GameState::Draw));
}
