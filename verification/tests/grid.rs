use tictactoe::game::grid::Grid;
use tictactoe::game::{CellState, PlayerId};

#[test]
fn test_grid() {
    let grid = Grid::new(3, 3, 3);
    match grid.get_cell(0, 0) {
        &CellState::Empty => return,
        &CellState::Occupied(_) => panic!("Cell in a new grid is set even though it shouldn't."),
    }
}

#[test]
fn test_set_cell() {
    let mut grid = Grid::new(3, 3, 3);
    if grid.set_cell(0, 0, PlayerId(1)) {
        match grid.get_cell(0, 0) {
            &CellState::Empty => panic!("Cell should be set after calling set_cell"),
            &CellState::Occupied(PlayerId(1)) => return,
            &CellState::Occupied(_) => panic!("Cell is set by the wrong player"),
        }
    } else {
        panic!("Cell could not be set although it shouldn't be set before");
    }
}

#[test]
fn test_grid_clone() {
    let mut original = Grid::new(1, 3, 3);
    original.set_cell(0, 0, PlayerId(1));
    original.set_cell(0, 0, PlayerId(2));

    let clone = original.clone();
    assert_eq!(original.column_count, clone.column_count);
    assert_eq!(original.row_count, clone.row_count);
    assert_eq!(original.to_win, clone.to_win);
    assert_eq!(original.get_cell(0, 0), clone.get_cell(0, 0));
    assert_eq!(original.get_cell(0, 1), clone.get_cell(0, 1));
    assert_eq!(original.get_cell(0, 2), clone.get_cell(0, 2));
}

#[test]
fn test_second_set_refused() {
    let mut grid = Grid::new(3, 3, 3);
    assert!(grid.set_cell(1, 1, PlayerId(1)));
    assert!(!grid.set_cell(1, 1, PlayerId(2)));
    assert!(!grid.set_cell(1, 1, PlayerId(1)));
    assert_eq!(&CellState::Occupied(PlayerId(1)), grid.get_cell(1, 1));
}

#[test]
fn test_clone_mutation_independent() {
    let mut original = Grid::new(2, 2, 2);
    original.set_cell(0, 0, PlayerId(1));
    let mut clone = original.clone();

    clone.set_cell(1, 1, PlayerId(2));
    original.set_cell(0, 1, PlayerId(2));

    assert_eq!(&CellState::Empty, original.get_cell(1, 1));
    assert_eq!(&CellState::Empty, clone.get_cell(0, 1));
    assert_eq!(&CellState::Occupied(PlayerId(1)), original.get_cell(0, 0));
    assert_eq!(&CellState::Occupied(PlayerId(1)), clone.get_cell(0, 0));
}

#[test]
fn test_cells_with_state_row_major() {
    let mut grid = Grid::new(2, 2, 2);
    grid.set_cell(0, 1, PlayerId(1));
    let empty = grid.get_cells_with_state(CellState::Empty);
    assert_eq!(vec![(0, 0), (1, 0), (1, 1)], empty);
    let taken = grid.get_cells_with_state(CellState::Occupied(PlayerId(1)));
    assert_eq!(vec![(0, 1)], taken);
}
