use tictactoe::game::grid::Grid;
use tictactoe::game::grid_observer::check_winner;
use tictactoe::game::{CellState, GameState, PlayerId};
use tictactoe::player::ki::{evaluate_game, GameEvaluation, KiPlayer};
use tictactoe::player::Player;

#[test]
fn ki_makes_any_turn() {
    let ki_id: u32 = 1;
    let mut grid = Grid::new(1, 1, 1);
    let ki = KiPlayer::new(ki_id);
    ki.make_turn(&mut grid);
    match grid.get_cell(0, 0) {
        &CellState::Empty => panic!("The ki didn't do anything."),
        &CellState::Occupied(PlayerId(id)) => {
            if id != ki_id {
                panic!("The ki with the {} made a turn for player {}.", ki_id, id);
            }
        },
    }
}

#[test]
fn ki_wins_without_active_opponent() {
    let ki_id: u32 = 1;
    let mut grid = Grid::new(3, 3, 3);
    let ki = KiPlayer::new(ki_id);
    for _ in 0..grid.to_win {
        ki.make_turn(&mut grid);
    }

    match check_winner(&grid) {
        GameState::Win(PlayerId(id)) if id != ki_id => panic!("The Ki somehow managed to lose"),
        GameState::Draw => panic!("The Ki made a draw."),
        GameState::Mid => panic!("The Ki can't even win without an opponent."),
        _ => {},
    }
}

#[test]
fn test_game_evaluation_undetermined() {
    let ki_id: u32 = 1;
    let mut grid = Grid::new(3, 3, 3);
    assert!(evaluate_game(&grid, PlayerId(ki_id)).is_none());
    grid.set_cell(0, 0, PlayerId(ki_id));
    assert!(evaluate_game(&grid, PlayerId(ki_id)).is_none());
}

#[test]
fn test_game_evaluation_win() {
    let ki_id: u32 = 1;
    let mut grid = Grid::new(3, 3, 3);
    grid.set_cell(0, 0, PlayerId(ki_id));
    grid.set_cell(0, 1, PlayerId(ki_id));
    grid.set_cell(0, 2, PlayerId(ki_id));
    assert_eq!(GameEvaluation::Win, evaluate_game(&grid, PlayerId(ki_id)).unwrap());
}

#[test]
fn test_game_evaluation_lose() {
    let ki_id: u32 = 1;
    let opponent_id: u32 = 2;
    let mut grid = Grid::new(3, 3, 3);
    grid.set_cell(0, 0, PlayerId(opponent_id));
    grid.set_cell(0, 1, PlayerId(opponent_id));
    grid.set_cell(0, 2, PlayerId(opponent_id));
    assert_eq!(GameEvaluation::Lose, evaluate_game(&grid, PlayerId(ki_id)).unwrap());
}

#[test]
fn test_game_evaluation_draw() {
    let mut grid = Grid::new(3, 3, 3);
    grid.set_cell(0, 0, PlayerId(1));
    grid.set_cell(0, 1, PlayerId(2));
    grid.set_cell(0, 2, PlayerId(1));
    grid.set_cell(1, 0, PlayerId(1));
    grid.set_cell(1, 1, PlayerId(2));
    grid.set_cell(1, 2, PlayerId(2));
    grid.set_cell(2, 0, PlayerId(2));
    grid.set_cell(2, 1, PlayerId(1));
    grid.set_cell(2, 2, PlayerId(1));
    assert_eq!(GameEvaluation::Draw, evaluate_game(&grid, PlayerId(1)).unwrap());
}

#[test]
fn ki_reaches_win_within_board_size() {
    let ki_id: u32 = 2;
    let mut grid = Grid::new(3, 3, 3);
    let ki = KiPlayer::new(ki_id);
    let mut turns: usize = 0;
    loop {
        match check_winner(&grid) {
            GameState::Win(PlayerId(id)) => {
                assert_eq!(ki_id, id, "only the engine moves, so only it may win");
                break;
            },
            GameState::Draw => panic!("an unopposed engine must not reach a draw"),
            GameState::Mid => {
                assert!(turns < 9, "the engine must win within one move per cell");
                ki.make_turn(&mut grid);
                turns += 1;
            },
        }
    }
}

#[test]
fn test_choose_move_selects_empty() {
    let ki = KiPlayer::new(1);
    let mut grid = Grid::new(3, 3, 3);
    grid.set_cell(0, 0, PlayerId(1));
    grid.set_cell(0, 1, PlayerId(2));
    let (row, column) = ki.choose_move(&grid, PlayerId(2));
    assert_eq!(&CellState::Empty, grid.get_cell(row, column));
}

#[test]
fn test_choose_move_first_found() {
    let ki = KiPlayer::new(1);
    let grid = Grid::new(3, 3, 3);
    // every opening move of this board forces a draw, so the tie goes to the
    // first cell in row-major order
    assert_eq!((0, 0), ki.choose_move(&grid, PlayerId(2)));
}
