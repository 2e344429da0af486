use vstd::prelude::*;

use crate::game::grid::{Grid, GridView};
use crate::game::{CellState, GameState, PlayerId};

verus! {

// ---------------------------------------------------------------------------
// What counts as a win
// ---------------------------------------------------------------------------
/// A run of the winning length for participant p, starting at (row, col) and
/// stepping by (dr, dc): every cell of the run lies on the board and is
/// marked by p.
pub open spec fn is_win_run(
    v: GridView,
    p: PlayerId,
    row: int,
    col: int,
    dr: int,
    dc: int,
) -> bool {
    forall|k: int|
        0 <= k < v.to_win ==> #[trigger] v.cell(row + k * dr, col + k * dc) == CellState::Occupied(p)
            && v.in_grid(row + k * dr, col + k * dc)
}

/// p owns a winning run along some row.
pub open spec fn has_horizontal_win(v: GridView, p: PlayerId) -> bool {
    exists|r: int, c: int| is_win_run(v, p, r, c, 0, 1)
}

/// p owns a winning run along some column.
pub open spec fn has_vertical_win(v: GridView, p: PlayerId) -> bool {
    exists|r: int, c: int| is_win_run(v, p, r, c, 1, 0)
}

/// p owns a winning run along a descending diagonal.
pub open spec fn has_descending_win(v: GridView, p: PlayerId) -> bool {
    exists|r: int, c: int| is_win_run(v, p, r, c, 1, 1)
}

/// p owns a winning run along an ascending diagonal.
pub open spec fn has_ascending_win(v: GridView, p: PlayerId) -> bool {
    exists|r: int, c: int| #[trigger] is_win_run(v, p, r, c, -1, 1)
}

/// p has won the board in one of the four scanned directions.
pub open spec fn has_win(v: GridView, p: PlayerId) -> bool {
    ||| has_horizontal_win(v, p)
    ||| has_vertical_win(v, p)
    ||| has_descending_win(v, p)
    ||| has_ascending_win(v, p)
}

/// Every cell of the board is marked.
pub open spec fn is_full(v: GridView) -> bool {
    forall|r: int, c: int| v.in_grid(r, c) ==> !(#[trigger] v.cell(r, c) is Empty)
}

/// Nobody has won and at least one cell is still free.
pub open spec fn in_progress(v: GridView) -> bool {
    (forall|p: PlayerId| !has_win(v, p)) && !is_full(v)
}

/// At most one participant holds a winning streak. This is true of every
/// position of a lawful game, where play stops at the first win; on such
/// boards the detector's result is a function of the board value alone.
pub open spec fn at_most_one_winner(v: GridView) -> bool {
    forall|p: PlayerId, q: PlayerId| has_win(v, p) && has_win(v, q) ==> p == q
}

/// The first cell of a winning run is on the board and marked by its owner.
pub proof fn lemma_win_run_first(v: GridView, p: PlayerId, row: int, col: int, dr: int, dc: int)
    requires
        v.to_win >= 1,
        is_win_run(v, p, row, col, dr, dc),
    ensures
        v.in_grid(row, col),
        v.cell(row, col) == CellState::Occupied(p),
{
    assert(v.cell(row + 0 * dr, col + 0 * dc) == CellState::Occupied(p) && v.in_grid(
        row + 0 * dr,
        col + 0 * dc,
    ));
}

/// A winning ascending run witnesses an ascending win.
proof fn lemma_ascending_witness(v: GridView, p: PlayerId, r: int, c: int)
    requires
        is_win_run(v, p, r, c, -1, 1),
    ensures
        has_ascending_win(v, p),
{
}

/// p owns a winning run that lies on the descending ray from (sr, sc).
pub open spec fn ray_has_descending_run(v: GridView, p: PlayerId, sr: int, sc: int) -> bool {
    exists|rr: int, cc: int|
        rr >= sr && rr - sr == cc - sc && #[trigger] is_win_run(v, p, rr, cc, 1, 1)
}

/// p owns a winning run that lies on the ascending ray from (sr, sc).
pub open spec fn ray_has_ascending_run(v: GridView, p: PlayerId, sr: int, sc: int) -> bool {
    exists|rr: int, cc: int|
        rr <= sr && sr - rr == cc - sc && #[trigger] is_win_run(v, p, rr, cc, -1, 1)
}

/// A winning run on the descending ray from (sr, sc) witnesses the
/// ray-local claim.
proof fn lemma_descending_ray_witness(v: GridView, p: PlayerId, sr: int, sc: int, rr: int, cc: int)
    requires
        rr >= sr,
        rr - sr == cc - sc,
        is_win_run(v, p, rr, cc, 1, 1),
    ensures
        ray_has_descending_run(v, p, sr, sc),
{
}

/// A winning run on the ascending ray from (sr, sc) witnesses the
/// ray-local claim.
proof fn lemma_ascending_ray_witness(v: GridView, p: PlayerId, sr: int, sc: int, rr: int, cc: int)
    requires
        rr <= sr,
        sr - rr == cc - sc,
        is_win_run(v, p, rr, cc, -1, 1),
    ensures
        ray_has_ascending_run(v, p, sr, sc),
{
}

// ---------------------------------------------------------------------------
// Streaks along the scanned rays
// ---------------------------------------------------------------------------
// Each scan walks one ray of cells and keeps a streak counter. The four
// ray_streak functions say, per direction, what that counter holds after the
// cell at step t: the length of the run of same-participant cells that ends
// there, counted along the ray.
/// The streak ending at column t of row r.
pub open spec fn ray_streak_h(v: GridView, r: int, t: int) -> nat
    decreases t,
{
    if t < 0 {
        0
    } else {
        match v.cell(r, t) {
            CellState::Empty => 0,
            CellState::Occupied(p) => if t >= 1 && v.cell(r, t - 1) == CellState::Occupied(p) {
                ray_streak_h(v, r, t - 1) + 1
            } else {
                1
            },
        }
    }
}

/// The streak ending at row t of column c.
pub open spec fn ray_streak_v(v: GridView, c: int, t: int) -> nat
    decreases t,
{
    if t < 0 {
        0
    } else {
        match v.cell(t, c) {
            CellState::Empty => 0,
            CellState::Occupied(p) => if t >= 1 && v.cell(t - 1, c) == CellState::Occupied(p) {
                ray_streak_v(v, c, t - 1) + 1
            } else {
                1
            },
        }
    }
}

/// The streak ending at step t of the descending ray from (sr, sc), whose
/// step t visits (sr + t, sc + t).
pub open spec fn ray_streak_d(v: GridView, sr: int, sc: int, t: int) -> nat
    decreases t,
{
    if t < 0 {
        0
    } else {
        match v.cell(sr + t, sc + t) {
            CellState::Empty => 0,
            CellState::Occupied(p) => if t >= 1 && v.cell(sr + (t - 1), sc + (t - 1)) == CellState::Occupied(
                p,
            ) {
                ray_streak_d(v, sr, sc, t - 1) + 1
            } else {
                1
            },
        }
    }
}

/// The streak ending at step t of the ascending ray from (sr, sc), whose
/// step t visits (sr - t, sc + t).
pub open spec fn ray_streak_a(v: GridView, sr: int, sc: int, t: int) -> nat
    decreases t,
{
    if t < 0 {
        0
    } else {
        match v.cell(sr - t, sc + t) {
            CellState::Empty => 0,
            CellState::Occupied(p) => if t >= 1 && v.cell(sr - (t - 1), sc + (t - 1)) == CellState::Occupied(
                p,
            ) {
                ray_streak_a(v, sr, sc, t - 1) + 1
            } else {
                1
            },
        }
    }
}

// ---------------------------------------------------------------------------
// A full streak yields a winning run (one lemma per direction)
// ---------------------------------------------------------------------------
/// The cells a streak counts are all equal to its last cell.
proof fn lemma_streak_cells_h(v: GridView, r: int, t: int)
    requires
        t >= 0,
    ensures
        ray_streak_h(v, r, t) <= t + 1,
        forall|i: int|
            0 <= i < ray_streak_h(v, r, t) ==> #[trigger] v.cell(r, t - i) == v.cell(r, t),
    decreases t,
{
    if t >= 1 && ray_streak_h(v, r, t) > 1 {
        lemma_streak_cells_h(v, r, t - 1);
        assert forall|i: int| 0 <= i < ray_streak_h(v, r, t) implies #[trigger] v.cell(r, t - i)
            == v.cell(r, t) by {
            if i >= 1 {
                assert(v.cell(r, (t - 1) - (i - 1)) == v.cell(r, t - 1));
            }
        }
    }
}

proof fn lemma_streak_cells_v(v: GridView, c: int, t: int)
    requires
        t >= 0,
    ensures
        ray_streak_v(v, c, t) <= t + 1,
        forall|i: int|
            0 <= i < ray_streak_v(v, c, t) ==> #[trigger] v.cell(t - i, c) == v.cell(t, c),
    decreases t,
{
    if t >= 1 && ray_streak_v(v, c, t) > 1 {
        lemma_streak_cells_v(v, c, t - 1);
        assert forall|i: int| 0 <= i < ray_streak_v(v, c, t) implies #[trigger] v.cell(t - i, c)
            == v.cell(t, c) by {
            if i >= 1 {
                assert(v.cell((t - 1) - (i - 1), c) == v.cell(t - 1, c));
            }
        }
    }
}

proof fn lemma_streak_cells_d(v: GridView, sr: int, sc: int, t: int)
    requires
        t >= 0,
    ensures
        ray_streak_d(v, sr, sc, t) <= t + 1,
        forall|i: int|
            0 <= i < ray_streak_d(v, sr, sc, t) ==> #[trigger] v.cell(sr + (t - i), sc + (t - i))
                == v.cell(sr + t, sc + t),
    decreases t,
{
    if t >= 1 && ray_streak_d(v, sr, sc, t) > 1 {
        lemma_streak_cells_d(v, sr, sc, t - 1);
        assert forall|i: int| 0 <= i < ray_streak_d(v, sr, sc, t) implies #[trigger] v.cell(
            sr + (t - i),
            sc + (t - i),
        ) == v.cell(sr + t, sc + t) by {
            if i >= 1 {
                assert(v.cell(sr + ((t - 1) - (i - 1)), sc + ((t - 1) - (i - 1))) == v.cell(
                    sr + (t - 1),
                    sc + (t - 1),
                ));
            }
        }
    }
}

proof fn lemma_streak_cells_a(v: GridView, sr: int, sc: int, t: int)
    requires
        t >= 0,
    ensures
        ray_streak_a(v, sr, sc, t) <= t + 1,
        forall|i: int|
            0 <= i < ray_streak_a(v, sr, sc, t) ==> #[trigger] v.cell(sr - (t - i), sc + (t - i))
                == v.cell(sr - t, sc + t),
    decreases t,
{
    if t >= 1 && ray_streak_a(v, sr, sc, t) > 1 {
        lemma_streak_cells_a(v, sr, sc, t - 1);
        assert forall|i: int| 0 <= i < ray_streak_a(v, sr, sc, t) implies #[trigger] v.cell(
            sr - (t - i),
            sc + (t - i),
        ) == v.cell(sr - t, sc + t) by {
            if i >= 1 {
                assert(v.cell(sr - ((t - 1) - (i - 1)), sc + ((t - 1) - (i - 1))) == v.cell(
                    sr - (t - 1),
                    sc + (t - 1),
                ));
            }
        }
    }
}

/// A streak of the winning length along a row is a horizontal win.
proof fn lemma_streak_win_h(v: GridView, p: PlayerId, r: int, t: int)
    requires
        v.to_win >= 1,
        0 <= r < v.rows,
        0 <= t < v.cols,
        v.cell(r, t) == CellState::Occupied(p),
        ray_streak_h(v, r, t) >= v.to_win,
    ensures
        is_win_run(v, p, r, t - (v.to_win - 1), 0, 1),
{
    lemma_streak_cells_h(v, r, t);
    let w = v.to_win as int;
    assert forall|k: int| 0 <= k < v.to_win implies #[trigger] v.cell(
        (r) + k * 0,
        (t - (w - 1)) + k * 1,
    ) == CellState::Occupied(p) && v.in_grid((r) + k * 0, (t - (w - 1)) + k * 1) by {
        assert(v.cell(r, t - (w - 1 - k)) == v.cell(r, t));
    }
}

proof fn lemma_streak_win_v(v: GridView, p: PlayerId, c: int, t: int)
    requires
        v.to_win >= 1,
        0 <= c < v.cols,
        0 <= t < v.rows,
        v.cell(t, c) == CellState::Occupied(p),
        ray_streak_v(v, c, t) >= v.to_win,
    ensures
        is_win_run(v, p, t - (v.to_win - 1), c, 1, 0),
{
    lemma_streak_cells_v(v, c, t);
    let w = v.to_win as int;
    assert forall|k: int| 0 <= k < v.to_win implies #[trigger] v.cell(
        (t - (w - 1)) + k * 1,
        (c) + k * 0,
    ) == CellState::Occupied(p) && v.in_grid((t - (w - 1)) + k * 1, (c) + k * 0) by {
        assert(v.cell(t - (w - 1 - k), c) == v.cell(t, c));
    }
}

proof fn lemma_streak_win_d(v: GridView, p: PlayerId, sr: int, sc: int, t: int)
    requires
        v.to_win >= 1,
        0 <= sr,
        0 <= sc,
        sr + t < v.rows,
        sc + t < v.cols,
        t >= 0,
        v.cell(sr + t, sc + t) == CellState::Occupied(p),
        ray_streak_d(v, sr, sc, t) >= v.to_win,
    ensures
        is_win_run(v, p, sr + (t - (v.to_win - 1)), sc + (t - (v.to_win - 1)), 1, 1),
{
    lemma_streak_cells_d(v, sr, sc, t);
    let w = v.to_win as int;
    assert forall|k: int| 0 <= k < v.to_win implies #[trigger] v.cell(
        (sr + (t - (w - 1))) + k * 1,
        (sc + (t - (w - 1))) + k * 1,
    ) == CellState::Occupied(p) && v.in_grid(
        (sr + (t - (w - 1))) + k * 1,
        (sc + (t - (w - 1))) + k * 1,
    ) by {
        assert(v.cell(sr + (t - (w - 1 - k)), sc + (t - (w - 1 - k))) == v.cell(sr + t, sc + t));
    }
}

proof fn lemma_streak_win_a(v: GridView, p: PlayerId, sr: int, sc: int, t: int)
    requires
        v.to_win >= 1,
        0 <= sc,
        sr < v.rows,
        sr - t >= 0,
        sc + t < v.cols,
        t >= 0,
        v.cell(sr - t, sc + t) == CellState::Occupied(p),
        ray_streak_a(v, sr, sc, t) >= v.to_win,
    ensures
        is_win_run(v, p, sr - (t - (v.to_win - 1)), sc + (t - (v.to_win - 1)), -1, 1),
{
    lemma_streak_cells_a(v, sr, sc, t);
    let w = v.to_win as int;
    assert forall|k: int| 0 <= k < v.to_win implies #[trigger] v.cell(
        (sr - (t - (w - 1))) + k * (-1),
        (sc + (t - (w - 1))) + k * 1,
    ) == CellState::Occupied(p) && v.in_grid(
        (sr - (t - (w - 1))) + k * (-1),
        (sc + (t - (w - 1))) + k * 1,
    ) by {
        assert(v.cell(sr - (t - (w - 1 - k)), sc + (t - (w - 1 - k))) == v.cell(sr - t, sc + t));
    }
}

// ---------------------------------------------------------------------------
// A winning run forces a full streak (one lemma per direction)
// ---------------------------------------------------------------------------
/// The first m cells of a winning run put a streak of at least m at the
/// run's m-th ray step.
proof fn lemma_win_streak_h(v: GridView, p: PlayerId, r: int, c: int, m: int)
    requires
        v.to_win >= 1,
        1 <= m <= v.to_win,
        is_win_run(v, p, r, c, 0, 1),
    ensures
        ray_streak_h(v, r, c + (m - 1)) >= m,
    decreases m,
{
    assert(v.cell(r + 0 * 0, c + 0 * 1) == CellState::Occupied(p) && v.in_grid(r + 0 * 0, c + 0 * 1));
    assert(v.cell(r + (m - 1) * 0, c + (m - 1) * 1) == CellState::Occupied(p) && v.in_grid(
        r + (m - 1) * 0,
        c + (m - 1) * 1,
    ));
    if m > 1 {
        lemma_win_streak_h(v, p, r, c, m - 1);
        assert(v.cell(r + (m - 2) * 0, c + (m - 2) * 1) == CellState::Occupied(p));
    }
}

proof fn lemma_win_streak_v(v: GridView, p: PlayerId, r: int, c: int, m: int)
    requires
        v.to_win >= 1,
        1 <= m <= v.to_win,
        is_win_run(v, p, r, c, 1, 0),
    ensures
        ray_streak_v(v, c, r + (m - 1)) >= m,
    decreases m,
{
    assert(v.cell(r + 0 * 1, c + 0 * 0) == CellState::Occupied(p) && v.in_grid(r + 0 * 1, c + 0 * 0));
    assert(v.cell(r + (m - 1) * 1, c + (m - 1) * 0) == CellState::Occupied(p) && v.in_grid(
        r + (m - 1) * 1,
        c + (m - 1) * 0,
    ));
    if m > 1 {
        lemma_win_streak_v(v, p, r, c, m - 1);
        assert(v.cell(r + (m - 2) * 1, c + (m - 2) * 0) == CellState::Occupied(p));
    }
}

/// For a run starting at ray step j of the descending ray from (sr, sc).
proof fn lemma_win_streak_d(v: GridView, p: PlayerId, sr: int, sc: int, j: int, m: int)
    requires
        v.to_win >= 1,
        1 <= m <= v.to_win,
        j >= 0,
        is_win_run(v, p, sr + j, sc + j, 1, 1),
    ensures
        ray_streak_d(v, sr, sc, j + (m - 1)) >= m,
    decreases m,
{
    assert(v.cell((sr + j) + (m - 1) * 1, (sc + j) + (m - 1) * 1) == CellState::Occupied(p)
        && v.in_grid((sr + j) + (m - 1) * 1, (sc + j) + (m - 1) * 1));
    if m > 1 {
        lemma_win_streak_d(v, p, sr, sc, j, m - 1);
        assert(v.cell((sr + j) + (m - 2) * 1, (sc + j) + (m - 2) * 1) == CellState::Occupied(p));
    }
}

/// For a run starting at ray step j of the ascending ray from (sr, sc).
proof fn lemma_win_streak_a(v: GridView, p: PlayerId, sr: int, sc: int, j: int, m: int)
    requires
        v.to_win >= 1,
        1 <= m <= v.to_win,
        j >= 0,
        is_win_run(v, p, sr - j, sc + j, -1, 1),
    ensures
        ray_streak_a(v, sr, sc, j + (m - 1)) >= m,
    decreases m,
{
    assert(v.cell((sr - j) + (m - 1) * (-1), (sc + j) + (m - 1) * 1) == CellState::Occupied(p)
        && v.in_grid((sr - j) + (m - 1) * (-1), (sc + j) + (m - 1) * 1));
    if m > 1 {
        lemma_win_streak_a(v, p, sr, sc, j, m - 1);
        assert(v.cell((sr - j) + (m - 2) * (-1), (sc + j) + (m - 2) * 1) == CellState::Occupied(p));
    }
}

// ---------------------------------------------------------------------------
// The first full streak in scan order
// ---------------------------------------------------------------------------
/// The horizontal scan first completes a streak at (r, t): walking rows top
/// down and columns left to right within each row, every earlier position
/// holds a streak below the winning length, and the streak ending at (r, t)
/// reaches it; p occupies that cell, so p is the participant the scan names.
pub open spec fn is_first_streak_h(v: GridView, p: PlayerId, r: int, t: int) -> bool {
    &&& 0 <= r < v.rows
    &&& 0 <= t < v.cols
    &&& v.cell(r, t) == CellState::Occupied(p)
    &&& ray_streak_h(v, r, t) >= v.to_win
    &&& forall|r2: int, t2: int|
        0 <= r2 < v.rows && 0 <= t2 < v.cols && (r2 < r || (r2 == r && t2 < t))
            ==> #[trigger] ray_streak_h(v, r2, t2) < v.to_win
}

/// p owns the first full streak the horizontal scan reaches.
pub open spec fn first_streak_win_h(v: GridView, p: PlayerId) -> bool {
    exists|r: int, t: int| #[trigger] is_first_streak_h(v, p, r, t)
}

/// The vertical counterpart: columns left to right, rows top down within
/// each column.
pub open spec fn is_first_streak_v(v: GridView, p: PlayerId, c: int, t: int) -> bool {
    &&& 0 <= c < v.cols
    &&& 0 <= t < v.rows
    &&& v.cell(t, c) == CellState::Occupied(p)
    &&& ray_streak_v(v, c, t) >= v.to_win
    &&& forall|c2: int, t2: int|
        0 <= c2 < v.cols && 0 <= t2 < v.rows && (c2 < c || (c2 == c && t2 < t))
            ==> #[trigger] ray_streak_v(v, c2, t2) < v.to_win
}

/// p owns the first full streak the vertical scan reaches.
pub open spec fn first_streak_win_v(v: GridView, p: PlayerId) -> bool {
    exists|c: int, t: int| #[trigger] is_first_streak_v(v, p, c, t)
}

/// The detector names q by its evaluation order: q owns the first full
/// streak of the horizontal scan, or no row holds a win at all and q owns
/// the first full streak of the vertical scan. Only when neither scan finds
/// anything are the diagonal scans reached.
pub open spec fn detector_names(v: GridView, q: PlayerId) -> bool {
    ||| first_streak_win_h(v, q)
    ||| (forall|p: PlayerId| !has_horizontal_win(v, p)) && first_streak_win_v(v, q)
}

proof fn lemma_first_streak_h_witness(v: GridView, p: PlayerId, r: int, t: int)
    requires
        is_first_streak_h(v, p, r, t),
    ensures
        first_streak_win_h(v, p),
{
}

proof fn lemma_first_streak_v_witness(v: GridView, p: PlayerId, c: int, t: int)
    requires
        is_first_streak_v(v, p, c, t),
    ensures
        first_streak_win_v(v, p),
{
}

/// Two owners of the first full horizontal streak are the same participant:
/// the first position is unique, and its cell names its occupant.
pub proof fn lemma_first_streak_h_unique(v: GridView, p: PlayerId, q: PlayerId)
    requires
        first_streak_win_h(v, p),
        first_streak_win_h(v, q),
    ensures
        p == q,
{
    let (r1, t1) = choose|r: int, t: int| #[trigger] is_first_streak_h(v, p, r, t);
    let (r2, t2) = choose|r: int, t: int| #[trigger] is_first_streak_h(v, q, r, t);
    if r1 < r2 || (r1 == r2 && t1 < t2) {
        assert(ray_streak_h(v, r1, t1) < v.to_win);
        assert(false);
    } else if r2 < r1 || (r1 == r2 && t2 < t1) {
        assert(ray_streak_h(v, r2, t2) < v.to_win);
        assert(false);
    }
}

/// The vertical counterpart of the uniqueness lemma.
pub proof fn lemma_first_streak_v_unique(v: GridView, p: PlayerId, q: PlayerId)
    requires
        first_streak_win_v(v, p),
        first_streak_win_v(v, q),
    ensures
        p == q,
{
    let (c1, t1) = choose|c: int, t: int| #[trigger] is_first_streak_v(v, p, c, t);
    let (c2, t2) = choose|c: int, t: int| #[trigger] is_first_streak_v(v, q, c, t);
    if c1 < c2 || (c1 == c2 && t1 < t2) {
        assert(ray_streak_v(v, c1, t1) < v.to_win);
        assert(false);
    } else if c2 < c1 || (c1 == c2 && t2 < t1) {
        assert(ray_streak_v(v, c2, t2) < v.to_win);
        assert(false);
    }
}

/// The first full horizontal streak is in particular a horizontal win.
proof fn lemma_first_streak_h_implies_win(v: GridView, p: PlayerId)
    requires
        v.to_win >= 1,
        first_streak_win_h(v, p),
    ensures
        has_horizontal_win(v, p),
{
    let (r, t) = choose|r: int, t: int| #[trigger] is_first_streak_h(v, p, r, t);
    lemma_streak_win_h(v, p, r, t);
}

/// The first full vertical streak is in particular a vertical win.
proof fn lemma_first_streak_v_implies_win(v: GridView, p: PlayerId)
    requires
        v.to_win >= 1,
        first_streak_win_v(v, p),
    ensures
        has_vertical_win(v, p),
{
    let (c, t) = choose|c: int, t: int| #[trigger] is_first_streak_v(v, p, c, t);
    lemma_streak_win_v(v, p, c, t);
}

// ---------------------------------------------------------------------------
// The detector
// ---------------------------------------------------------------------------
/// Advance one streak over one cell: a free cell breaks the streak, a cell
/// of the tracked participant extends it, and a cell of another participant
/// starts a fresh streak of one for that participant.
fn check_cell(cell: &CellState, streak_player: &mut u32, streak_length: &mut u32)
    requires
        *old(streak_length) < u32::MAX,
    ensures
        match *cell {
            CellState::Empty => *final(streak_length) == 0 && *final(streak_player) == *old(
                streak_player,
            ),
            CellState::Occupied(p) => {
                &&& p == PlayerId(*final(streak_player))
                &&& if p == PlayerId(*old(streak_player)) {
                    *final(streak_length) == *old(streak_length) + 1
                } else {
                    *final(streak_length) == 1
                }
            },
        },
{
    match cell {
        CellState::Empty => {
            *streak_length = 0;
        },
        CellState::Occupied(PlayerId(id)) => {
            if *id == *streak_player {
                *streak_length = *streak_length + 1;
            } else {
                *streak_length = 1;
                *streak_player = *id;
            }
        },
    }
}

/// Scan every row left to right for a winning streak.
fn check_horizontal(grid: &Grid) -> (r: Option<PlayerId>)
    requires
        grid@.wf(),
        grid@.to_win >= 1,
    ensures
        match r {
            Some(p) => has_horizontal_win(grid@, p),
            None => forall|p: PlayerId| !has_horizontal_win(grid@, p),
        },
        r matches Some(p) ==> first_streak_win_h(grid@, p),
        forall|q: PlayerId|
            at_most_one_winner(grid@) && #[trigger] has_horizontal_win(grid@, q) ==> r == Some(q),
{
    let ghost v = grid@;
    let mut streak_player: u32 = 0;
    let mut streak_length: u32 = 0;
    let mut row_nr: usize = 0;
    while row_nr < grid.row_count
        invariant
            grid@ == v,
            v.wf(),
            v.to_win >= 1,
            row_nr <= v.rows,
            streak_length == 0,
            forall|rr: int, u: int|
                0 <= rr < row_nr && 0 <= u < v.cols ==> #[trigger] ray_streak_h(v, rr, u)
                    < v.to_win,
        decreases v.rows - row_nr,
    {
        let mut cell_nr: usize = 0;
        while cell_nr < grid.column_count
            invariant
                grid@ == v,
                v.wf(),
                v.to_win >= 1,
                row_nr < v.rows,
                cell_nr <= v.cols,
                forall|rr: int, u: int|
                    0 <= rr < row_nr && 0 <= u < v.cols ==> #[trigger] ray_streak_h(v, rr, u)
                        < v.to_win,
                forall|u: int|
                    0 <= u < cell_nr ==> #[trigger] ray_streak_h(v, row_nr as int, u) < v.to_win,
                streak_length < v.to_win,
                streak_length == if cell_nr == 0 {
                    0nat
                } else {
                    ray_streak_h(v, row_nr as int, cell_nr - 1)
                },
                streak_length > 0 ==> v.cell(row_nr as int, cell_nr - 1) == CellState::Occupied(
                    PlayerId(streak_player),
                ),
            decreases v.cols - cell_nr,
        {
            let cell = grid.get_cell(row_nr, cell_nr);
            check_cell(cell, &mut streak_player, &mut streak_length);
            proof {
                assert(streak_length == ray_streak_h(v, row_nr as int, cell_nr as int));
            }
            if streak_length >= grid.to_win {
                proof {
                    lemma_streak_win_h(v, PlayerId(streak_player), row_nr as int, cell_nr as int);
                    assert(is_first_streak_h(v, PlayerId(streak_player), row_nr as int, cell_nr as int)) by {
                        assert forall|r2: int, t2: int|
                            0 <= r2 < v.rows && 0 <= t2 < v.cols && (r2 < row_nr || (r2 == row_nr
                                && t2 < cell_nr)) implies #[trigger] ray_streak_h(v, r2, t2)
                            < v.to_win by {}
                    }
                    lemma_first_streak_h_witness(
                        v,
                        PlayerId(streak_player),
                        row_nr as int,
                        cell_nr as int,
                    );
                    assert forall|q: PlayerId|
                        at_most_one_winner(v) && has_horizontal_win(v, q) implies PlayerId(
                        streak_player,
                    ) == q by {
                        assert(has_win(v, q));
                        assert(has_win(v, PlayerId(streak_player)));
                    }
                }
                return Some(PlayerId(streak_player));
            }
            cell_nr = cell_nr + 1;
        }
        streak_length = 0;
        row_nr = row_nr + 1;
    }
    proof {
        assert forall|p: PlayerId| !has_horizontal_win(v, p) by {
            if has_horizontal_win(v, p) {
                let (sr, sc) = choose|sr: int, sc: int| is_win_run(v, p, sr, sc, 0, 1);
                lemma_win_run_first(v, p, sr, sc, 0, 1);
                assert(v.cell(sr + (v.to_win - 1) * 0, sc + (v.to_win - 1) * 1) == CellState::Occupied(
                    p,
                ) && v.in_grid(sr + (v.to_win - 1) * 0, sc + (v.to_win - 1) * 1));
                lemma_win_streak_h(v, p, sr, sc, v.to_win as int);
            }
        }
    }
    None
}

/// Scan every column top to bottom for a winning streak.
fn check_vertical(grid: &Grid) -> (r: Option<PlayerId>)
    requires
        grid@.wf(),
        grid@.to_win >= 1,
    ensures
        match r {
            Some(p) => has_vertical_win(grid@, p),
            None => forall|p: PlayerId| !has_vertical_win(grid@, p),
        },
        r matches Some(p) ==> first_streak_win_v(grid@, p),
        forall|q: PlayerId|
            at_most_one_winner(grid@) && #[trigger] has_vertical_win(grid@, q) ==> r == Some(q),
{
    let ghost v = grid@;
    let mut streak_player: u32 = 0;
    let mut streak_length: u32 = 0;
    let mut col_nr: usize = 0;
    while col_nr < grid.column_count
        invariant
            grid@ == v,
            v.wf(),
            v.to_win >= 1,
            col_nr <= v.cols,
            streak_length == 0,
            forall|cc: int, u: int|
                0 <= cc < col_nr && 0 <= u < v.rows ==> #[trigger] ray_streak_v(v, cc, u)
                    < v.to_win,
        decreases v.cols - col_nr,
    {
        let mut row_nr: usize = 0;
        while row_nr < grid.row_count
            invariant
                grid@ == v,
                v.wf(),
                v.to_win >= 1,
                col_nr < v.cols,
                row_nr <= v.rows,
                forall|cc: int, u: int|
                    0 <= cc < col_nr && 0 <= u < v.rows ==> #[trigger] ray_streak_v(v, cc, u)
                        < v.to_win,
                forall|u: int|
                    0 <= u < row_nr ==> #[trigger] ray_streak_v(v, col_nr as int, u) < v.to_win,
                streak_length < v.to_win,
                streak_length == if row_nr == 0 {
                    0nat
                } else {
                    ray_streak_v(v, col_nr as int, row_nr - 1)
                },
                streak_length > 0 ==> v.cell(row_nr - 1, col_nr as int) == CellState::Occupied(
                    PlayerId(streak_player),
                ),
            decreases v.rows - row_nr,
        {
            let cell = grid.get_cell(row_nr, col_nr);
            check_cell(cell, &mut streak_player, &mut streak_length);
            proof {
                assert(streak_length == ray_streak_v(v, col_nr as int, row_nr as int));
            }
            if streak_length >= grid.to_win {
                proof {
                    lemma_streak_win_v(v, PlayerId(streak_player), col_nr as int, row_nr as int);
                    assert(is_first_streak_v(v, PlayerId(streak_player), col_nr as int, row_nr as int)) by {
                        assert forall|c2: int, t2: int|
                            0 <= c2 < v.cols && 0 <= t2 < v.rows && (c2 < col_nr || (c2 == col_nr
                                && t2 < row_nr)) implies #[trigger] ray_streak_v(v, c2, t2)
                            < v.to_win by {}
                    }
                    lemma_first_streak_v_witness(
                        v,
                        PlayerId(streak_player),
                        col_nr as int,
                        row_nr as int,
                    );
                    assert forall|q: PlayerId|
                        at_most_one_winner(v) && has_vertical_win(v, q) implies PlayerId(
                        streak_player,
                    ) == q by {
                        assert(has_win(v, q));
                        assert(has_win(v, PlayerId(streak_player)));
                    }
                }
                return Some(PlayerId(streak_player));
            }
            row_nr = row_nr + 1;
        }
        streak_length = 0;
        col_nr = col_nr + 1;
    }
    proof {
        assert forall|p: PlayerId| !has_vertical_win(v, p) by {
            if has_vertical_win(v, p) {
                let (sr, sc) = choose|sr: int, sc: int| is_win_run(v, p, sr, sc, 1, 0);
                lemma_win_run_first(v, p, sr, sc, 1, 0);
                assert(v.cell(sr + (v.to_win - 1) * 1, sc + (v.to_win - 1) * 0) == CellState::Occupied(
                    p,
                ) && v.in_grid(sr + (v.to_win - 1) * 1, sc + (v.to_win - 1) * 0));
                lemma_win_streak_v(v, p, sr, sc, v.to_win as int);
            }
        }
    }
    None
}

/// Walk the descending ray that starts at (startrow, startcolumn) and look
/// for a winning streak on it.
fn check_top_down_diagonal(grid: &Grid, startrow: usize, startcolumn: usize) -> (r: Option<
    PlayerId,
>)
    requires
        grid@.wf(),
        grid@.to_win >= 1,
    ensures
        match r {
            Some(p) => has_descending_win(grid@, p),
            None => forall|p: PlayerId, rr: int, cc: int|
                rr >= startrow && rr - startrow == cc - startcolumn ==> !#[trigger] is_win_run(
                    grid@,
                    p,
                    rr,
                    cc,
                    1,
                    1,
                ),
        },
        r matches Some(p) ==> ray_has_descending_run(grid@, p, startrow as int, startcolumn as int),
{
    let ghost v = grid@;
    let mut streak_player: u32 = 0;
    let mut streak_length: u32 = 0;
    let mut rownr: usize = startrow;
    let mut colnr: usize = startcolumn;
    while rownr < grid.row_count && colnr < grid.column_count
        invariant
            grid@ == v,
            v.wf(),
            v.to_win >= 1,
            startrow <= rownr,
            startcolumn <= colnr,
            rownr - startrow == colnr - startcolumn,
            forall|u: int|
                0 <= u < rownr - startrow ==> #[trigger] ray_streak_d(
                    v,
                    startrow as int,
                    startcolumn as int,
                    u,
                ) < v.to_win,
            streak_length < v.to_win,
            streak_length == if rownr == startrow {
                0nat
            } else {
                ray_streak_d(v, startrow as int, startcolumn as int, rownr - startrow - 1)
            },
            streak_length > 0 ==> v.cell(rownr - 1, colnr - 1) == CellState::Occupied(
                PlayerId(streak_player),
            ),
        decreases v.rows - rownr,
    {
        let cell = grid.get_cell(rownr, colnr);
        check_cell(cell, &mut streak_player, &mut streak_length);
        proof {
            assert(streak_length == ray_streak_d(
                v,
                startrow as int,
                startcolumn as int,
                rownr - startrow,
            ));
        }
        if streak_length >= grid.to_win {
            proof {
                let t = rownr - startrow;
                lemma_streak_cells_d(v, startrow as int, startcolumn as int, t);
                lemma_streak_win_d(v, PlayerId(streak_player), startrow as int, startcolumn as int, t);
                let w = v.to_win as int;
                lemma_descending_ray_witness(
                    v,
                    PlayerId(streak_player),
                    startrow as int,
                    startcolumn as int,
                    startrow + (t - (w - 1)),
                    startcolumn + (t - (w - 1)),
                );
            }
            return Some(PlayerId(streak_player));
        }
        rownr = rownr + 1;
        colnr = colnr + 1;
    }
    proof {
        assert forall|p: PlayerId, rr: int, cc: int|
            rr >= startrow && rr - startrow == cc - startcolumn implies !#[trigger] is_win_run(
            v,
            p,
            rr,
            cc,
            1,
            1,
        ) by {
            if is_win_run(v, p, rr, cc, 1, 1) {
                let j = rr - startrow;
                assert(v.cell(rr + (v.to_win - 1) * 1, cc + (v.to_win - 1) * 1) == CellState::Occupied(
                    p,
                ) && v.in_grid(rr + (v.to_win - 1) * 1, cc + (v.to_win - 1) * 1));
                lemma_win_streak_d(
                    v,
                    p,
                    startrow as int,
                    startcolumn as int,
                    j,
                    v.to_win as int,
                );
            }
        }
    }
    None
}

/// Walk the ascending ray that starts at (startrow, startcolumn) and look
/// for a winning streak on it.
fn check_bottom_up_diagonal(grid: &Grid, startrow: usize, startcolumn: usize) -> (r: Option<
    PlayerId,
>)
    requires
        grid@.wf(),
        grid@.to_win >= 1,
        grid@.in_grid(startrow as int, startcolumn as int),
    ensures
        r matches Some(p) ==> has_ascending_win(grid@, p),
        r matches Some(p) ==> ray_has_ascending_run(grid@, p, startrow as int, startcolumn as int),
        r is None ==> forall|p: PlayerId, rr: int, cc: int|
            rr <= startrow && startrow - rr == cc - startcolumn ==> !#[trigger] is_win_run(
                grid@,
                p,
                rr,
                cc,
                -1,
                1,
            ),
{
    let ghost v = grid@;
    proof {
        assert(v.rows + v.cols <= v.rows * v.cols + 1) by (nonlinear_arith)
            requires
                v.rows >= 1,
                v.cols >= 1,
        ;
    }
    let mut streak_player: u32 = 0;
    let mut streak_length: u32 = 0;
    let mut t: usize = 0;
    while t <= startrow && startcolumn + t < grid.column_count
        invariant
            grid@ == v,
            v.wf(),
            v.to_win >= 1,
            startrow < v.rows,
            startcolumn < v.cols,
            t <= startrow + 1,
            startcolumn + t <= v.cols,
            v.rows + v.cols <= v.rows * v.cols + 1,
            forall|u: int|
                0 <= u < t ==> #[trigger] ray_streak_a(v, startrow as int, startcolumn as int, u)
                    < v.to_win,
            streak_length < v.to_win,
            streak_length == if t == 0 {
                0nat
            } else {
                ray_streak_a(v, startrow as int, startcolumn as int, t - 1)
            },
            streak_length > 0 ==> v.cell(startrow - (t - 1), startcolumn + (t - 1))
                == CellState::Occupied(PlayerId(streak_player)),
        decreases v.cols - t,
    {
        let cell = grid.get_cell(startrow - t, startcolumn + t);
        check_cell(cell, &mut streak_player, &mut streak_length);
        proof {
            assert(streak_length == ray_streak_a(
                v,
                startrow as int,
                startcolumn as int,
                t as int,
            ));
        }
        if streak_length >= grid.to_win {
            proof {
                lemma_streak_cells_a(v, startrow as int, startcolumn as int, t as int);
                lemma_streak_win_a(
                    v,
                    PlayerId(streak_player),
                    startrow as int,
                    startcolumn as int,
                    t as int,
                );
                let w = v.to_win as int;
                let rr = startrow - (t - (w - 1));
                let cc = startcolumn + (t - (w - 1));
                assert(is_win_run(v, PlayerId(streak_player), rr, cc, -1, 1));
                lemma_ascending_witness(v, PlayerId(streak_player), rr, cc);
                lemma_ascending_ray_witness(
                    v,
                    PlayerId(streak_player),
                    startrow as int,
                    startcolumn as int,
                    rr,
                    cc,
                );
            }
            return Some(PlayerId(streak_player));
        }
        t = t + 1;
    }
    proof {
        assert forall|p: PlayerId, rr: int, cc: int|
            rr <= startrow && startrow - rr == cc - startcolumn implies !#[trigger] is_win_run(
            v,
            p,
            rr,
            cc,
            -1,
            1,
        ) by {
            if is_win_run(v, p, rr, cc, -1, 1) {
                let j = startrow - rr;
                lemma_win_run_first(v, p, rr, cc, -1, 1);
                assert(v.in_grid((rr) + (v.to_win - 1) * (-1), (cc) + (v.to_win - 1) * 1)) by {
                    assert(v.cell((rr) + (v.to_win - 1) * (-1), (cc) + (v.to_win - 1) * 1)
                        == CellState::Occupied(p) && v.in_grid(
                        (rr) + (v.to_win - 1) * (-1),
                        (cc) + (v.to_win - 1) * 1,
                    ));
                }
                lemma_win_streak_a(
                    v,
                    p,
                    startrow as int,
                    startcolumn as int,
                    j,
                    v.to_win as int,
                );
            }
        }
    }
    None
}

/// Check both diagonal rays that start at one cell.
fn check_any_diagonal(grid: &Grid, startrow: usize, startcolumn: usize) -> (r: Option<PlayerId>)
    requires
        grid@.wf(),
        grid@.to_win >= 1,
        grid@.in_grid(startrow as int, startcolumn as int),
    ensures
        match r {
            Some(p) => has_descending_win(grid@, p) || has_ascending_win(grid@, p),
            None => (forall|p: PlayerId, rr: int, cc: int|
                rr >= startrow && rr - startrow == cc - startcolumn ==> !#[trigger] is_win_run(
                    grid@,
                    p,
                    rr,
                    cc,
                    1,
                    1,
                )) && (forall|p: PlayerId, rr: int, cc: int|
                rr <= startrow && startrow - rr == cc - startcolumn ==> !#[trigger] is_win_run(
                    grid@,
                    p,
                    rr,
                    cc,
                    -1,
                    1,
                )),
        },
{
    match check_top_down_diagonal(grid, startrow, startcolumn) {
        Some(p) => Some(p),
        None => check_bottom_up_diagonal(grid, startrow, startcolumn),
    }
}

/// Scan both diagonal directions: every descending ray starts on the left
/// column or the top row, and every ascending ray starts on the left column
/// or the bottom row, so every maximal diagonal of either direction is
/// traced end to end.
fn check_diagonal(grid: &Grid) -> (r: Option<PlayerId>)
    requires
        grid@.wf(),
        grid@.to_win >= 1,
    ensures
        match r {
            Some(p) => has_descending_win(grid@, p) || has_ascending_win(grid@, p),
            None => forall|p: PlayerId|
                !has_descending_win(grid@, p) && !has_ascending_win(grid@, p),
        },
        forall|q: PlayerId|
            at_most_one_winner(grid@) && (#[trigger] has_descending_win(grid@, q)
                || has_ascending_win(grid@, q)) ==> r == Some(q),
{
    let ghost v = grid@;
    let mut rownr: usize = 0;
    while rownr < grid.row_count
        invariant
            grid@ == v,
            v.wf(),
            v.to_win >= 1,
            rownr <= v.rows,
            forall|p: PlayerId, rr: int, cc: int|
                cc >= 0 && 0 <= rr - cc < rownr ==> !#[trigger] is_win_run(v, p, rr, cc, 1, 1),
            forall|p: PlayerId, rr: int, cc: int|
                cc >= 0 && 0 <= rr + cc < rownr ==> !#[trigger] is_win_run(v, p, rr, cc, -1, 1),
        decreases v.rows - rownr,
    {
        match check_any_diagonal(grid, rownr, 0) {
            Some(p) => {
                proof {
                    assert forall|q: PlayerId|
                        at_most_one_winner(v) && (has_descending_win(v, q) || has_ascending_win(
                            v,
                            q,
                        )) implies p == q by {
                        assert(has_win(v, q));
                        assert(has_win(v, p));
                    }
                }
                return Some(p);
            },
            None => {},
        }
        rownr = rownr + 1;
    }
    let mut colnr: usize = 0;
    while colnr < grid.column_count
        invariant
            grid@ == v,
            v.wf(),
            v.to_win >= 1,
            colnr <= v.cols,
            forall|p: PlayerId, rr: int, cc: int|
                cc >= 0 && 0 <= rr - cc < v.rows ==> !#[trigger] is_win_run(v, p, rr, cc, 1, 1),
            forall|p: PlayerId, rr: int, cc: int|
                cc >= 0 && 0 <= rr + cc < v.rows ==> !#[trigger] is_win_run(v, p, rr, cc, -1, 1),
            forall|p: PlayerId, rr: int, cc: int|
                rr >= 0 && 0 <= cc - rr < colnr ==> !#[trigger] is_win_run(v, p, rr, cc, 1, 1),
            forall|p: PlayerId, rr: int, cc: int|
                rr <= 0 && 0 <= cc + rr < colnr ==> !#[trigger] is_win_run(v, p, rr, cc, -1, 1),
        decreases v.cols - colnr,
    {
        match check_any_diagonal(grid, 0, colnr) {
            Some(p) => {
                proof {
                    assert forall|q: PlayerId|
                        at_most_one_winner(v) && (has_descending_win(v, q) || has_ascending_win(
                            v,
                            q,
                        )) implies p == q by {
                        assert(has_win(v, q));
                        assert(has_win(v, p));
                    }
                }
                return Some(p);
            },
            None => {},
        }
        colnr = colnr + 1;
    }
    let mut low_colnr: usize = 0;
    while low_colnr < grid.column_count
        invariant
            grid@ == v,
            v.wf(),
            v.to_win >= 1,
            low_colnr <= v.cols,
            forall|p: PlayerId, rr: int, cc: int|
                cc >= 0 && 0 <= rr - cc < v.rows ==> !#[trigger] is_win_run(v, p, rr, cc, 1, 1),
            forall|p: PlayerId, rr: int, cc: int|
                cc >= 0 && 0 <= rr + cc < v.rows ==> !#[trigger] is_win_run(v, p, rr, cc, -1, 1),
            forall|p: PlayerId, rr: int, cc: int|
                rr >= 0 && 0 <= cc - rr < v.cols ==> !#[trigger] is_win_run(v, p, rr, cc, 1, 1),
            forall|p: PlayerId, rr: int, cc: int|
                rr < v.rows && 0 <= rr + cc - (v.rows - 1) < low_colnr ==> !#[trigger] is_win_run(
                    v,
                    p,
                    rr,
                    cc,
                    -1,
                    1,
                ),
        decreases v.cols - low_colnr,
    {
        match check_bottom_up_diagonal(grid, grid.row_count - 1, low_colnr) {
            Some(p) => {
                proof {
                    assert forall|q: PlayerId|
                        at_most_one_winner(v) && (has_descending_win(v, q) || has_ascending_win(
                            v,
                            q,
                        )) implies p == q by {
                        assert(has_win(v, q));
                        assert(has_win(v, p));
                    }
                }
                return Some(p);
            },
            None => {},
        }
        low_colnr = low_colnr + 1;
    }
    proof {
        assert forall|p: PlayerId| !has_descending_win(v, p) && !has_ascending_win(v, p) by {
            if has_descending_win(v, p) {
                let (rr, cc) = choose|rr: int, cc: int| is_win_run(v, p, rr, cc, 1, 1);
                lemma_win_run_first(v, p, rr, cc, 1, 1);
                assert(false);
            }
            if has_ascending_win(v, p) {
                let (rr, cc) = choose|rr: int, cc: int| #[trigger] is_win_run(v, p, rr, cc, -1, 1);
                lemma_win_run_first(v, p, rr, cc, -1, 1);
                assert(false);
            }
        }
    }
    None
}

/// Whether every cell of the board is marked.
fn check_full(grid: &Grid) -> (r: bool)
    requires
        grid@.wf(),
    ensures
        r == is_full(grid@),
{
    let ghost v = grid@;
    let mut row_nr: usize = 0;
    while row_nr < grid.row_count
        invariant
            grid@ == v,
            v.wf(),
            row_nr <= v.rows,
            forall|rr: int, cc: int|
                v.in_grid(rr, cc) && rr < row_nr ==> !(#[trigger] v.cell(rr, cc) is Empty),
        decreases v.rows - row_nr,
    {
        let mut col_nr: usize = 0;
        while col_nr < grid.column_count
            invariant
                grid@ == v,
                v.wf(),
                row_nr < v.rows,
                col_nr <= v.cols,
                forall|rr: int, cc: int|
                    v.in_grid(rr, cc) && rr < row_nr ==> !(#[trigger] v.cell(rr, cc) is Empty),
                forall|cc: int|
                    0 <= cc < col_nr ==> !(#[trigger] v.cell(row_nr as int, cc) is Empty),
            decreases v.cols - col_nr,
        {
            match *grid.get_cell(row_nr, col_nr) {
                CellState::Empty => {
                    return false;
                },
                CellState::Occupied(_) => {},
            }
            col_nr = col_nr + 1;
        }
        row_nr = row_nr + 1;
    }
    true
}

/// Judge a board: a winning streak in any scanned direction names the
/// winner; otherwise a full board is a draw and any free cell leaves the
/// game in progress. The winner follows the evaluation order — whoever owns
/// the first full streak of the horizontal scan, else of the vertical scan,
/// else a diagonal winner — so the judgment is a function of the board value
/// wherever that order decides. The one corner it leaves open is a board on
/// which two participants hold only diagonal wins at once; lawful play never
/// reaches one (play stops at the first win), and there the at-most-one-
/// winner clause pins the result instead.
pub fn check_winner(grid: &Grid) -> (r: GameState)
    requires
        grid@.wf(),
        grid@.to_win >= 1,
    ensures
        match r {
            GameState::Win(p) => has_win(grid@, p),
            GameState::Draw => (forall|p: PlayerId| !has_win(grid@, p)) && is_full(grid@),
            GameState::Mid => (forall|p: PlayerId| !has_win(grid@, p)) && !is_full(grid@),
        },
        forall|q: PlayerId|
            at_most_one_winner(grid@) && #[trigger] has_win(grid@, q) ==> r == GameState::Win(q),
        forall|q: PlayerId| #[trigger] detector_names(grid@, q) ==> r == GameState::Win(q),
{
    let ghost v = grid@;
    match check_horizontal(grid) {
        Some(id) => {
            proof {
                assert forall|q: PlayerId| #[trigger] detector_names(v, q) implies id == q by {
                    if first_streak_win_h(v, q) {
                        lemma_first_streak_h_unique(v, id, q);
                    } else {
                        assert(!has_horizontal_win(v, id));
                        assert(false);
                    }
                }
            }
            return GameState::Win(id);
        },
        None => {},
    }
    match check_vertical(grid) {
        Some(id) => {
            proof {
                assert forall|q: PlayerId| #[trigger] detector_names(v, q) implies id == q by {
                    if first_streak_win_h(v, q) {
                        lemma_first_streak_h_implies_win(v, q);
                        assert(false);
                    } else {
                        lemma_first_streak_v_unique(v, id, q);
                    }
                }
            }
            return GameState::Win(id);
        },
        None => {},
    }
    proof {
        assert forall|q: PlayerId| !#[trigger] detector_names(v, q) by {
            if first_streak_win_h(v, q) {
                lemma_first_streak_h_implies_win(v, q);
                assert(false);
            }
            if first_streak_win_v(v, q) {
                lemma_first_streak_v_implies_win(v, q);
                assert(false);
            }
        }
    }
    match check_diagonal(grid) {
        Some(id) => {
            return GameState::Win(id);
        },
        None => {},
    }
    if check_full(grid) {
        GameState::Draw
    } else {
        GameState::Mid
    }
}

/// A freshly constructed board — every cell free, a positive winning
/// length — is still in progress: nobody has a win and it is not full.
pub proof fn lemma_fresh_board_in_progress(v: GridView)
    requires
        v.wf(),
        v.to_win >= 1,
        forall|i: int| 0 <= i < v.cells.len() ==> v.cells[i] is Empty,
    ensures
        in_progress(v),
{
    crate::game::grid::lemma_flat_bounds(v, 0, 0);
    assert(v.cell(0, 0) is Empty);
    assert(!is_full(v));
    assert forall|p: PlayerId| !has_win(v, p) by {
        if has_horizontal_win(v, p) {
            let (r, c) = choose|r: int, c: int| is_win_run(v, p, r, c, 0, 1);
            lemma_win_run_first(v, p, r, c, 0, 1);
            crate::game::grid::lemma_flat_bounds(v, r, c);
        }
        if has_vertical_win(v, p) {
            let (r, c) = choose|r: int, c: int| is_win_run(v, p, r, c, 1, 0);
            lemma_win_run_first(v, p, r, c, 1, 0);
            crate::game::grid::lemma_flat_bounds(v, r, c);
        }
        if has_descending_win(v, p) {
            let (r, c) = choose|r: int, c: int| is_win_run(v, p, r, c, 1, 1);
            lemma_win_run_first(v, p, r, c, 1, 1);
            crate::game::grid::lemma_flat_bounds(v, r, c);
        }
        if has_ascending_win(v, p) {
            let (r, c) = choose|r: int, c: int| #[trigger] is_win_run(v, p, r, c, -1, 1);
            lemma_win_run_first(v, p, r, c, -1, 1);
            crate::game::grid::lemma_flat_bounds(v, r, c);
        }
    }
}

} // verus!
