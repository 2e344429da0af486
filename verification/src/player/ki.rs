use vstd::prelude::*;

use crate::game::grid::{count_empty, Grid, GridView};
use crate::game::grid_observer;
use crate::game::grid_observer::at_most_one_winner;
use crate::game::{CellState, GameState, PlayerId};
use crate::player::Player;

verus! {

/// The outcome of a searched game, relative to a stated perspective
/// participant: symmetric with the absolute board judgment, but
/// perspective-relative.
#[derive(Debug, Copy, Clone, PartialEq, Eq, Structural)]
pub enum GameEvaluation {
    Win,
    Lose,
    Draw,
}

/// The same verdict seen from the other side of the table.
pub open spec fn invert_eval(e: GameEvaluation) -> GameEvaluation {
    match e {
        GameEvaluation::Win => GameEvaluation::Lose,
        GameEvaluation::Lose => GameEvaluation::Win,
        GameEvaluation::Draw => GameEvaluation::Draw,
    }
}

/// The verdict a finished board carries from one perspective, or None while
/// the game is still open.
pub open spec fn terminal_eval(v: GridView, perspective: PlayerId) -> Option<GameEvaluation> {
    if exists|q: PlayerId| grid_observer::has_win(v, q) {
        if grid_observer::has_win(v, perspective) {
            Some(GameEvaluation::Win)
        } else {
            Some(GameEvaluation::Lose)
        }
    } else if grid_observer::is_full(v) {
        Some(GameEvaluation::Draw)
    } else {
        None
    }
}

/// Whether (r, c) may be played on v: on the board, in a free cell.
pub open spec fn is_legal_move(v: GridView, r: int, c: int) -> bool {
    v.in_grid(r, c) && v.cell(r, c) is Empty
}

/// The forced verdict of the game for the participant about to move, found
/// by exhaustive search: the best verdict any legal move can reach, where a
/// move's verdict is the inverse of the verdict the opponent then forces.
/// The fuel bounds the recursion; at every node reached from a real board it
/// equals the number of free cells, so the zero case is never taken.
pub open spec fn search_eval_fuel(
    v: GridView,
    mover: PlayerId,
    other: PlayerId,
    fuel: nat,
) -> GameEvaluation
    decreases fuel,
{
    match terminal_eval(v, mover) {
        Some(e) => e,
        None => {
            if fuel == 0 {
                arbitrary()
            } else if exists|r: int, c: int|
                #[trigger] is_legal_move(v, r, c) && invert_eval(
                    search_eval_fuel(v.place(r, c, mover), other, mover, (fuel - 1) as nat),
                ) == GameEvaluation::Win {
                GameEvaluation::Win
            } else if exists|r: int, c: int|
                #[trigger] is_legal_move(v, r, c) && invert_eval(
                    search_eval_fuel(v.place(r, c, mover), other, mover, (fuel - 1) as nat),
                ) == GameEvaluation::Draw {
                GameEvaluation::Draw
            } else {
                GameEvaluation::Lose
            }
        },
    }
}

/// The forced verdict of the game for the participant about to move.
pub open spec fn search_eval(v: GridView, mover: PlayerId, other: PlayerId) -> GameEvaluation {
    search_eval_fuel(v, mover, other, count_empty(v.cells))
}

/// The verdict, for the mover, of marking the free cell (r, c) and handing
/// the turn to the other participant.
pub open spec fn move_eval(
    v: GridView,
    mover: PlayerId,
    other: PlayerId,
    r: int,
    c: int,
) -> GameEvaluation {
    invert_eval(search_eval(v.place(r, c, mover), other, mover))
}

/// The engine's choice is unique: two first-best moves are the same cell.
pub proof fn lemma_chosen_move_unique(
    v: GridView,
    mover: PlayerId,
    other: PlayerId,
    r1: int,
    c1: int,
    r2: int,
    c2: int,
)
    requires
        is_chosen_move(v, mover, other, r1, c1),
        is_chosen_move(v, mover, other, r2, c2),
    ensures
        r1 == r2 && c1 == c2,
{
    if v.flat(r1, c1) < v.flat(r2, c2) {
        assert(move_eval(v, mover, other, r1, c1) != search_eval(v, mover, other));
        assert(false);
    } else if v.flat(r2, c2) < v.flat(r1, c1) {
        assert(move_eval(v, mover, other, r2, c2) != search_eval(v, mover, other));
        assert(false);
    } else if !(r1 == r2 && c1 == c2) {
        crate::game::grid::lemma_flat_injective(v, r1, c1, r2, c2);
        assert(false);
    }
}

/// How many plies the search descends, following first-best moves, before
/// it reaches a finished board: the terminal depth of the principal line.
/// The fuel bounds the recursion and equals the number of free cells at
/// every node reached from a real board.
pub open spec fn chosen_path_len_fuel(
    v: GridView,
    mover: PlayerId,
    other: PlayerId,
    fuel: nat,
) -> nat
    decreases fuel,
{
    match terminal_eval(v, mover) {
        Some(_) => 0,
        None => if fuel == 0 {
            arbitrary()
        } else {
            let rc = choose|r: int, c: int| is_chosen_move(v, mover, other, r, c);
            1 + chosen_path_len_fuel(v.place(rc.0, rc.1, mover), other, mover, (fuel - 1) as nat)
        },
    }
}

/// How many plies the search descends along first-best moves.
pub open spec fn chosen_path_len(v: GridView, mover: PlayerId, other: PlayerId) -> nat {
    chosen_path_len_fuel(v, mover, other, count_empty(v.cells))
}

/// (r, c) is the move the engine chooses on v: the first free cell in
/// row-major order whose verdict equals the position's own verdict. Winning
/// moves therefore beat drawing moves, drawing moves beat losing ones, and
/// ties go to the earliest enumerated cell, never to the shallowest win.
pub open spec fn is_chosen_move(
    v: GridView,
    mover: PlayerId,
    other: PlayerId,
    r: int,
    c: int,
) -> bool {
    &&& is_legal_move(v, r, c)
    &&& move_eval(v, mover, other, r, c) == search_eval(v, mover, other)
    &&& forall|r2: int, c2: int|
        #[trigger] is_legal_move(v, r2, c2) && v.flat(r2, c2) < v.flat(r, c) ==> move_eval(
            v,
            mover,
            other,
            r2,
            c2,
        ) != search_eval(v, mover, other)
}

/// A winning run survives the marking of a cell by another participant: the
/// run's cells are all the winner's, so the marked cell is not among them.
proof fn lemma_run_transfer(
    v: GridView,
    r: int,
    c: int,
    p: PlayerId,
    q: PlayerId,
    sr: int,
    sc: int,
    dr: int,
    dc: int,
)
    requires
        v.wf(),
        v.in_grid(r, c),
        q != p,
        grid_observer::is_win_run(v.place(r, c, p), q, sr, sc, dr, dc),
    ensures
        grid_observer::is_win_run(v, q, sr, sc, dr, dc),
{
    let w = v.place(r, c, p);
    crate::game::grid::lemma_place_frame(v, r, c, p);
    assert forall|k: int| 0 <= k < v.to_win implies #[trigger] v.cell(sr + k * dr, sc + k * dc)
        == CellState::Occupied(q) && v.in_grid(sr + k * dr, sc + k * dc) by {
        assert(w.cell(sr + k * dr, sc + k * dc) == CellState::Occupied(q) && w.in_grid(
            sr + k * dr,
            sc + k * dc,
        ));
    }
}

/// Marking one cell can hand a win to the marking participant alone: on a
/// board without any winner, every winner of the marked board is the marker.
pub proof fn lemma_place_winners(v: GridView, r: int, c: int, p: PlayerId)
    requires
        v.wf(),
        v.in_grid(r, c),
        forall|q: PlayerId| !grid_observer::has_win(v, q),
    ensures
        forall|q: PlayerId| q != p ==> !grid_observer::has_win(v.place(r, c, p), q),
{
    let w = v.place(r, c, p);
    assert forall|q: PlayerId| q != p implies !grid_observer::has_win(w, q) by {
        assert(!grid_observer::has_win(v, q));
        if grid_observer::has_horizontal_win(w, q) {
            let (sr, sc) = choose|sr: int, sc: int| grid_observer::is_win_run(w, q, sr, sc, 0, 1);
            lemma_run_transfer(v, r, c, p, q, sr, sc, 0, 1);
            assert(grid_observer::has_horizontal_win(v, q));
            assert(false);
        }
        if grid_observer::has_vertical_win(w, q) {
            let (sr, sc) = choose|sr: int, sc: int| grid_observer::is_win_run(w, q, sr, sc, 1, 0);
            lemma_run_transfer(v, r, c, p, q, sr, sc, 1, 0);
            assert(grid_observer::has_vertical_win(v, q));
            assert(false);
        }
        if grid_observer::has_descending_win(w, q) {
            let (sr, sc) = choose|sr: int, sc: int| grid_observer::is_win_run(w, q, sr, sc, 1, 1);
            lemma_run_transfer(v, r, c, p, q, sr, sc, 1, 1);
            assert(grid_observer::has_descending_win(v, q));
            assert(false);
        }
        if grid_observer::has_ascending_win(w, q) {
            let (sr, sc) = choose|sr: int, sc: int| #[trigger] grid_observer::is_win_run(w, q, sr, sc, -1, 1);
            lemma_run_transfer(v, r, c, p, q, sr, sc, -1, 1);
            assert(grid_observer::has_ascending_win(v, q));
            assert(false);
        }
    }
}

/// One unfolding of the search at a node that is still open: the node's
/// verdict is the best verdict among its legal moves.
pub proof fn lemma_search_eval_open(v: GridView, mover: PlayerId, other: PlayerId)
    requires
        v.wf(),
        terminal_eval(v, mover) is None,
    ensures
        count_empty(v.cells) >= 1,
        search_eval(v, mover, other) == GameEvaluation::Win <==> (exists|r: int, c: int|
            #[trigger] is_legal_move(v, r, c) && move_eval(v, mover, other, r, c)
                == GameEvaluation::Win),
        search_eval(v, mover, other) == GameEvaluation::Draw <==> (!(exists|r: int, c: int|
            #[trigger] is_legal_move(v, r, c) && move_eval(v, mover, other, r, c)
                == GameEvaluation::Win) && (exists|r: int, c: int|
            #[trigger] is_legal_move(v, r, c) && move_eval(v, mover, other, r, c)
                == GameEvaluation::Draw)),
        search_eval(v, mover, other) == GameEvaluation::Lose <==> (forall|r: int, c: int|
            #[trigger] is_legal_move(v, r, c) ==> move_eval(v, mover, other, r, c)
                == GameEvaluation::Lose),
{
    let count = count_empty(v.cells);
    let (fr, fc) = choose|r: int, c: int| v.in_grid(r, c) && (v.cell(r, c) is Empty);
    crate::game::grid::lemma_flat_bounds(v, fr, fc);
    crate::game::grid::lemma_count_empty_zero(v.cells);
    assert(count >= 1);
    assert forall|r: int, c: int| #[trigger] is_legal_move(v, r, c) implies invert_eval(
        search_eval_fuel(v.place(r, c, mover), other, mover, (count - 1) as nat),
    ) == move_eval(v, mover, other, r, c) by {
        crate::game::grid::lemma_flat_bounds(v, r, c);
        crate::game::grid::lemma_count_empty_update(v.cells, v.flat(r, c), mover);
        assert(count_empty(v.place(r, c, mover).cells) == count - 1);
    }
    assert forall|r: int, c: int| #[trigger] is_legal_move(v, r, c) implies move_eval(
        v,
        mover,
        other,
        r,
        c,
    ) == GameEvaluation::Win || move_eval(v, mover, other, r, c) == GameEvaluation::Draw
        || move_eval(v, mover, other, r, c) == GameEvaluation::Lose by {
        let e = search_eval(v.place(r, c, mover), other, mover);
        assert(invert_eval(e) == move_eval(v, mover, other, r, c));
    }
}

/// One unfolding of the principal-line length at a node that is still open:
/// the path descends through the node's unique first-best move.
pub proof fn lemma_chosen_path_len_open(
    v: GridView,
    mover: PlayerId,
    other: PlayerId,
    r: int,
    c: int,
)
    requires
        v.wf(),
        terminal_eval(v, mover) is None,
        is_chosen_move(v, mover, other, r, c),
    ensures
        chosen_path_len(v, mover, other) == 1 + chosen_path_len(
            v.place(r, c, mover),
            other,
            mover,
        ),
{
    let count = count_empty(v.cells);
    let (fr, fc) = choose|rr: int, cc: int| v.in_grid(rr, cc) && (v.cell(rr, cc) is Empty);
    crate::game::grid::lemma_flat_bounds(v, fr, fc);
    crate::game::grid::lemma_count_empty_zero(v.cells);
    assert(count >= 1);
    let rc = choose|r: int, c: int| is_chosen_move(v, mover, other, r, c);
    lemma_chosen_move_unique(v, mover, other, rc.0, rc.1, r, c);
    crate::game::grid::lemma_flat_bounds(v, r, c);
    crate::game::grid::lemma_count_empty_update(v.cells, v.flat(r, c), mover);
    assert(count_empty(v.place(r, c, mover).cells) == count - 1);
}

/// One coordinate the engine proposes to mark.
#[derive(Debug, Copy, Clone)]
struct Move {
    pub row: usize,
    pub column: usize,
}

impl Move {
    fn new(row: usize, column: usize) -> (m: Move)
        ensures
            m.row == row,
            m.column == column,
    {
        Move { row, column }
    }
}

/// Judge a board from one participant's perspective: the winner's identity
/// decides between Win and Lose, a full board without a winner is a Draw,
/// and an open board carries no verdict yet.
pub fn evaluate_game(grid: &Grid, perspective: PlayerId) -> (res: Option<GameEvaluation>)
    requires
        grid@.wf(),
        grid@.to_win >= 1,
    ensures
        match res {
            None => !(exists|q: PlayerId| grid_observer::has_win(grid@, q))
                && !grid_observer::is_full(grid@),
            Some(e) => match e {
                GameEvaluation::Win => grid_observer::has_win(grid@, perspective),
                GameEvaluation::Lose => exists|q: PlayerId|
                    q != perspective && #[trigger] grid_observer::has_win(grid@, q),
                GameEvaluation::Draw => !(exists|q: PlayerId| grid_observer::has_win(grid@, q))
                    && grid_observer::is_full(grid@),
            },
        },
        at_most_one_winner(grid@) ==> res == terminal_eval(grid@, perspective),
        forall|q: PlayerId| #[trigger]
            grid_observer::detector_names(grid@, q) ==> res == Some(
                if q == perspective {
                    GameEvaluation::Win
                } else {
                    GameEvaluation::Lose
                },
            ),
{
    match grid_observer::check_winner(grid) {
        GameState::Mid => None,
        GameState::Win(winner) => if winner == perspective {
            Some(GameEvaluation::Win)
        } else {
            Some(GameEvaluation::Lose)
        },
        GameState::Draw => Some(GameEvaluation::Draw),
    }
}

/// Explore every legal continuation of the board and settle the forced
/// verdict for the participant about to move, together with the first
/// enumerated move that reaches it. On a finished board there is no move to
/// propose; depth names the ply at which the verdict's terminal board lies.
#[verifier::loop_isolation(false)]
#[verifier::rlimit(100)]
fn minimax(grid: &Grid, current_player: PlayerId, other_player: PlayerId, depth: u32) -> (res: (
    GameEvaluation,
    Option<Move>,
    u32,
))
    requires
        grid@.wf(),
        grid@.to_win >= 1,
        at_most_one_winner(grid@),
        depth + count_empty(grid@.cells) <= u32::MAX,
    ensures
        res.0 == search_eval(grid@, current_player, other_player),
        terminal_eval(grid@, current_player) is Some ==> res.1 is None && res.2 == depth,
        terminal_eval(grid@, current_player) is None ==> (res.1 matches Some(m)
            && is_chosen_move(grid@, current_player, other_player, m.row as int, m.column as int)),
        res.2 == depth + chosen_path_len(grid@, current_player, other_player),
        terminal_eval(grid@, current_player) is None ==> res.2 >= depth + 1,
        res.2 >= depth,
    decreases count_empty(grid@.cells),
{
    let ghost v = grid@;
    let evaluation = evaluate_game(grid, current_player);
    match evaluation {
        Some(e) => (e, None, depth),
        None => {
            proof {
                lemma_search_eval_open(v, current_player, other_player);
            }
            let ghost best = search_eval(v, current_player, other_player);
            let mut wins: Vec<(Move, u32)> = Vec::new();
            let mut draws: Vec<(Move, u32)> = Vec::new();
            let mut loses: Vec<(Move, u32)> = Vec::new();
            let cands = grid.get_cells_with_state(CellState::Empty);
            let ghost mut win_at: int = 0;
            let ghost mut draw_at: int = 0;
            let ghost mut lose_at: int = 0;
            let mut i: usize = 0;
            while i < cands.len()
                invariant
                    i <= cands.len(),
                    wins@.len() + draws@.len() + loses@.len() == i,
                    wins@.len() == 0 ==> forall|j: int|
                        0 <= j < i ==> move_eval(
                            v,
                            current_player,
                            other_player,
                            #[trigger] cands@[j].0 as int,
                            cands@[j].1 as int,
                        ) != GameEvaluation::Win,
                    draws@.len() == 0 ==> forall|j: int|
                        0 <= j < i ==> move_eval(
                            v,
                            current_player,
                            other_player,
                            #[trigger] cands@[j].0 as int,
                            cands@[j].1 as int,
                        ) != GameEvaluation::Draw,
                    loses@.len() == 0 ==> forall|j: int|
                        0 <= j < i ==> move_eval(
                            v,
                            current_player,
                            other_player,
                            #[trigger] cands@[j].0 as int,
                            cands@[j].1 as int,
                        ) != GameEvaluation::Lose,
                    wins@.len() > 0 ==> {
                        &&& 0 <= win_at < i
                        &&& wins@[0].0.row == cands@[win_at].0
                        &&& wins@[0].0.column == cands@[win_at].1
                        &&& wins@[0].1 == depth + 1 + chosen_path_len(
                            v.place(
                                cands@[win_at].0 as int,
                                cands@[win_at].1 as int,
                                current_player,
                            ),
                            other_player,
                            current_player,
                        )
                        &&& move_eval(
                            v,
                            current_player,
                            other_player,
                            cands@[win_at].0 as int,
                            cands@[win_at].1 as int,
                        ) == GameEvaluation::Win
                        &&& forall|j: int|
                            0 <= j < win_at ==> move_eval(
                                v,
                                current_player,
                                other_player,
                                #[trigger] cands@[j].0 as int,
                                cands@[j].1 as int,
                            ) != GameEvaluation::Win
                    },
                    draws@.len() > 0 ==> {
                        &&& 0 <= draw_at < i
                        &&& draws@[0].0.row == cands@[draw_at].0
                        &&& draws@[0].0.column == cands@[draw_at].1
                        &&& draws@[0].1 == depth + 1 + chosen_path_len(
                            v.place(
                                cands@[draw_at].0 as int,
                                cands@[draw_at].1 as int,
                                current_player,
                            ),
                            other_player,
                            current_player,
                        )
                        &&& move_eval(
                            v,
                            current_player,
                            other_player,
                            cands@[draw_at].0 as int,
                            cands@[draw_at].1 as int,
                        ) == GameEvaluation::Draw
                        &&& forall|j: int|
                            0 <= j < draw_at ==> move_eval(
                                v,
                                current_player,
                                other_player,
                                #[trigger] cands@[j].0 as int,
                                cands@[j].1 as int,
                            ) != GameEvaluation::Draw
                    },
                    loses@.len() > 0 ==> {
                        &&& 0 <= lose_at < i
                        &&& loses@[0].0.row == cands@[lose_at].0
                        &&& loses@[0].0.column == cands@[lose_at].1
                        &&& loses@[0].1 == depth + 1 + chosen_path_len(
                            v.place(
                                cands@[lose_at].0 as int,
                                cands@[lose_at].1 as int,
                                current_player,
                            ),
                            other_player,
                            current_player,
                        )
                        &&& move_eval(
                            v,
                            current_player,
                            other_player,
                            cands@[lose_at].0 as int,
                            cands@[lose_at].1 as int,
                        ) == GameEvaluation::Lose
                        &&& forall|j: int|
                            0 <= j < lose_at ==> move_eval(
                                v,
                                current_player,
                                other_player,
                                #[trigger] cands@[j].0 as int,
                                cands@[j].1 as int,
                            ) != GameEvaluation::Lose
                    },
                decreases cands.len() - i,
            {
                let (row, col) = cands[i];
                proof {
                    crate::game::grid::lemma_flat_bounds(v, row as int, col as int);
                    crate::game::grid::lemma_count_empty_update(
                        v.cells,
                        v.flat(row as int, col as int),
                        current_player,
                    );
                    lemma_place_winners(v, row as int, col as int, current_player);
                }
                let mut new_grid = grid.clone();
                new_grid.set_cell(row, col, current_player);
                let (child_eval, _, child_depth) = minimax(
                    &new_grid,
                    other_player,
                    current_player,
                    depth + 1,
                );
                proof {
                    assert(child_eval == search_eval(
                        v.place(row as int, col as int, current_player),
                        other_player,
                        current_player,
                    ));
                    assert(invert_eval(child_eval) == move_eval(
                        v,
                        current_player,
                        other_player,
                        row as int,
                        col as int,
                    ));
                }
                match child_eval {
                    GameEvaluation::Lose => {
                        if wins.len() == 0 {
                            proof {
                                win_at = i as int;
                            }
                        }
                        wins.push((Move::new(row, col), child_depth));
                    },
                    GameEvaluation::Draw => {
                        if draws.len() == 0 {
                            proof {
                                draw_at = i as int;
                            }
                        }
                        draws.push((Move::new(row, col), child_depth));
                    },
                    GameEvaluation::Win => {
                        if loses.len() == 0 {
                            proof {
                                lose_at = i as int;
                            }
                        }
                        loses.push((Move::new(row, col), child_depth));
                    },
                }
                i = i + 1;
            }
            proof {
                assert(cands@.len() > 0) by {
                    let (fr, fc) = choose|r: int, c: int|
                        v.in_grid(r, c) && (v.cell(r, c) is Empty);
                }
            }
            if wins.len() > 0 {
                let (mov, d) = wins[0];
                proof {
                    lemma_first_of_kind(v, current_player, other_player, cands@, win_at, GameEvaluation::Win);
                    assert(is_chosen_move(
                        v,
                        current_player,
                        other_player,
                        cands@[win_at].0 as int,
                        cands@[win_at].1 as int,
                    ));
                    lemma_chosen_path_len_open(
                        v,
                        current_player,
                        other_player,
                        cands@[win_at].0 as int,
                        cands@[win_at].1 as int,
                    );
                }
                (GameEvaluation::Win, Some(mov), d)
            } else if draws.len() > 0 {
                let (mov, d) = draws[0];
                proof {
                    lemma_first_of_kind(v, current_player, other_player, cands@, draw_at, GameEvaluation::Draw);
                    assert(is_chosen_move(
                        v,
                        current_player,
                        other_player,
                        cands@[draw_at].0 as int,
                        cands@[draw_at].1 as int,
                    ));
                    lemma_chosen_path_len_open(
                        v,
                        current_player,
                        other_player,
                        cands@[draw_at].0 as int,
                        cands@[draw_at].1 as int,
                    );
                }
                (GameEvaluation::Draw, Some(mov), d)
            } else {
                let (mov, d) = loses[0];
                proof {
                    lemma_first_of_kind(v, current_player, other_player, cands@, lose_at, GameEvaluation::Lose);
                    assert(is_chosen_move(
                        v,
                        current_player,
                        other_player,
                        cands@[lose_at].0 as int,
                        cands@[lose_at].1 as int,
                    ));
                    lemma_chosen_path_len_open(
                        v,
                        current_player,
                        other_player,
                        cands@[lose_at].0 as int,
                        cands@[lose_at].1 as int,
                    );
                }
                (GameEvaluation::Lose, Some(mov), d)
            }
        },
    }
}

/// The board's free cells enumerated in row-major order contain every legal
/// move; if entry k is the first of its verdict in the enumeration, the move
/// it names is the first such cell of the whole board.
proof fn lemma_first_of_kind(
    v: GridView,
    mover: PlayerId,
    other: PlayerId,
    cands: Seq<(usize, usize)>,
    at: int,
    e: GameEvaluation,
)
    requires
        v.wf(),
        0 <= at < cands.len(),
        forall|k: int|
            0 <= k < cands.len() ==> v.in_grid(#[trigger] cands[k].0 as int, cands[k].1 as int)
                && v.cell(cands[k].0 as int, cands[k].1 as int) == CellState::Empty,
        forall|k1: int, k2: int|
            0 <= k1 < k2 < cands.len() ==> v.flat(#[trigger] cands[k1].0 as int, cands[k1].1 as int)
                < v.flat(#[trigger] cands[k2].0 as int, cands[k2].1 as int),
        forall|r: int, c: int|
            v.in_grid(r, c) && v.cell(r, c) == CellState::Empty ==> exists|k: int|
                0 <= k < cands.len() && #[trigger] cands[k].0 as int == r && cands[k].1 as int == c,
        move_eval(v, mover, other, cands[at].0 as int, cands[at].1 as int) == e,
        forall|j: int|
            0 <= j < at ==> move_eval(v, mover, other, #[trigger] cands[j].0 as int, cands[j].1 as int)
                != e,
    ensures
        is_legal_move(v, cands[at].0 as int, cands[at].1 as int),
        forall|r2: int, c2: int|
            #[trigger] is_legal_move(v, r2, c2) && v.flat(r2, c2) < v.flat(
                cands[at].0 as int,
                cands[at].1 as int,
            ) ==> move_eval(v, mover, other, r2, c2) != e,
{
    assert forall|r2: int, c2: int|
        #[trigger] is_legal_move(v, r2, c2) && v.flat(r2, c2) < v.flat(
            cands[at].0 as int,
            cands[at].1 as int,
        ) implies move_eval(v, mover, other, r2, c2) != e by {
        let k = choose|k: int|
            0 <= k < cands.len() && #[trigger] cands[k].0 as int == r2 && cands[k].1 as int == c2;
        if k > at {
            assert(v.flat(cands[at].0 as int, cands[at].1 as int) < v.flat(
                cands[k].0 as int,
                cands[k].1 as int,
            ));
            assert(false);
        } else if k == at {
            assert(false);
        }
        assert(move_eval(v, mover, other, cands[k].0 as int, cands[k].1 as int) != e);
    }
}

/// The automated mover: searches the whole game tree and plays the first
/// best move.
pub struct KiPlayer {
    id: u32,
}

impl KiPlayer {
    pub fn new(id: u32) -> (k: KiPlayer)
        ensures
            k.participant() == PlayerId(id),
    {
        KiPlayer { id }
    }

    /// The engine's move for the board, played against the named opponent:
    /// the first free cell, in row-major order, whose searched verdict
    /// equals the position's best verdict. It never names an occupied cell.
    pub fn choose_move(&self, grid: &Grid, opponent: PlayerId) -> (mv: (usize, usize))
        requires
            grid@.wf(),
            grid@.to_win >= 1,
            grid_observer::in_progress(grid@),
            grid@.rows * grid@.cols <= u32::MAX,
        ensures
            is_chosen_move(grid@, self.participant(), opponent, mv.0 as int, mv.1 as int),
            grid@.in_grid(mv.0 as int, mv.1 as int),
            grid@.cell(mv.0 as int, mv.1 as int) is Empty,
    {
        let ghost v = grid@;
        proof {
            crate::game::grid::lemma_count_empty_le(v.cells);
        }
        let (_, position, _) = minimax(grid, PlayerId(self.id), opponent, 0);
        match position {
            Some(mov) => (mov.row, mov.column),
            None => vstd::pervasive::unreached(),
        }
    }
}

impl Player for KiPlayer {
    closed spec fn participant(&self) -> PlayerId {
        PlayerId(self.id)
    }

    fn make_turn(&self, grid: &mut Grid) {
        let other_id: u32 = if self.id == 1 {
            2
        } else {
            1
        };
        let (row, column) = self.choose_move(grid, PlayerId(other_id));
        grid.set_cell(row, column, PlayerId(self.id));
    }
}

} // verus!
