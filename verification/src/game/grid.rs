use vstd::prelude::*;

use crate::game::{CellState, PlayerId};

verus! {

/// The mathematical model of a board: the cells as one flat row-major
/// sequence, together with the dimensions and the winning run length.
#[verifier::ext_equal]
pub ghost struct GridView {
    pub cells: Seq<CellState>,
    pub rows: nat,
    pub cols: nat,
    pub to_win: nat,
}

impl GridView {
    /// Whether (row, col) addresses a cell of the board.
    pub open spec fn in_grid(self, row: int, col: int) -> bool {
        0 <= row < self.rows && 0 <= col < self.cols
    }

    /// The flat row-major index of (row, col).
    pub open spec fn flat(self, row: int, col: int) -> int {
        row * self.cols + col
    }

    /// The cell at (row, col).
    pub open spec fn cell(self, row: int, col: int) -> CellState {
        self.cells[self.flat(row, col)]
    }

    /// A board model is well formed when it has at least one row and one
    /// column, the cell count fits in usize, and the sequence holds exactly
    /// one entry per cell.
    pub open spec fn wf(self) -> bool {
        &&& self.rows >= 1
        &&& self.cols >= 1
        &&& self.rows * self.cols <= usize::MAX
        &&& self.cells.len() == self.rows * self.cols
    }

    /// The model after marking (row, col) for participant p.
    pub open spec fn place(self, row: int, col: int, p: PlayerId) -> GridView {
        GridView { cells: self.cells.update(self.flat(row, col), CellState::Occupied(p)), ..self }
    }
}

/// How many cells of s are still free.
pub open spec fn count_empty(s: Seq<CellState>) -> nat
    decreases s.len(),
{
    if s.len() == 0 {
        0
    } else {
        count_empty(s.drop_last()) + if s.last() is Empty {
            1nat
        } else {
            0nat
        }
    }
}

/// No sequence holds more free cells than cells.
pub proof fn lemma_count_empty_le(s: Seq<CellState>)
    ensures
        count_empty(s) <= s.len(),
    decreases s.len(),
{
    if s.len() > 0 {
        lemma_count_empty_le(s.drop_last());
    }
}

/// Marking a free cell lowers the free count by exactly one.
pub proof fn lemma_count_empty_update(s: Seq<CellState>, i: int, p: PlayerId)
    requires
        0 <= i < s.len(),
        s[i] is Empty,
    ensures
        count_empty(s.update(i, CellState::Occupied(p))) + 1 == count_empty(s),
    decreases s.len(),
{
    let t = s.update(i, CellState::Occupied(p));
    if i == s.len() - 1 {
        assert(t.drop_last() =~= s.drop_last());
    } else {
        lemma_count_empty_update(s.drop_last(), i, p);
        assert(t.drop_last() =~= s.drop_last().update(i, CellState::Occupied(p)));
    }
}

/// The free count is zero exactly when every cell is marked.
pub proof fn lemma_count_empty_zero(s: Seq<CellState>)
    ensures
        (count_empty(s) == 0) <==> (forall|i: int| 0 <= i < s.len() ==> !(s[i] is Empty)),
    decreases s.len(),
{
    if s.len() > 0 {
        lemma_count_empty_zero(s.drop_last());
        if count_empty(s) == 0 {
            assert forall|i: int| 0 <= i < s.len() implies !(s[i] is Empty) by {
                if i < s.len() - 1 {
                    assert(s.drop_last()[i] == s[i]);
                }
            }
        } else {
            if count_empty(s.drop_last()) > 0 {
                let j = choose|j: int|
                    0 <= j < s.drop_last().len() && s.drop_last()[j] is Empty;
                assert(s[j] is Empty);
            }
        }
    }
}

/// Distinct in-bounds coordinates have distinct flat indices.
pub proof fn lemma_flat_injective(v: GridView, r1: int, c1: int, r2: int, c2: int)
    requires
        v.in_grid(r1, c1),
        v.in_grid(r2, c2),
        !(r1 == r2 && c1 == c2),
    ensures
        v.flat(r1, c1) != v.flat(r2, c2),
{
    assert(r1 * v.cols + c1 != r2 * v.cols + c2) by (nonlinear_arith)
        requires
            0 <= c1 < v.cols,
            0 <= c2 < v.cols,
            0 <= r1,
            0 <= r2,
            !(r1 == r2 && c1 == c2),
    ;
}

/// In-bounds coordinates index into the cell sequence of a well-formed board.
pub proof fn lemma_flat_bounds(v: GridView, row: int, col: int)
    requires
        v.in_grid(row, col),
    ensures
        0 <= v.flat(row, col) < v.rows * v.cols,
{
    assert(0 <= row * v.cols + col < v.rows * v.cols) by (nonlinear_arith)
        requires
            0 <= row < v.rows,
            0 <= col < v.cols,
    ;
}

/// Marking one cell changes that cell alone: every other cell keeps its
/// contents, and the dimensions and the winning run length stay as they were.
pub proof fn lemma_place_frame(v: GridView, row: int, col: int, p: PlayerId)
    requires
        v.wf(),
        v.in_grid(row, col),
    ensures
        v.place(row, col, p).wf(),
        v.place(row, col, p).cell(row, col) == CellState::Occupied(p),
        forall|r2: int, c2: int|
            v.in_grid(r2, c2) && !(r2 == row && c2 == col) ==> v.place(row, col, p).cell(r2, c2)
                == v.cell(r2, c2),
{
    lemma_flat_bounds(v, row, col);
    assert forall|r2: int, c2: int|
        v.in_grid(r2, c2) && !(r2 == row && c2 == col) implies v.place(row, col, p).cell(r2, c2)
        == v.cell(r2, c2) by {
        lemma_flat_injective(v, r2, c2, row, col);
        lemma_flat_bounds(v, r2, c2);
    }
}

/// A second marking of one coordinate is always refused: a successful
/// marking leaves the cell occupied by the first marker, so the refusing
/// branch of set_cell governs every later attempt on that coordinate,
/// whichever participant tries, and the board then stays unchanged.
pub proof fn lemma_second_marking_refused(v: GridView, row: int, col: int, p: PlayerId)
    requires
        v.wf(),
        v.in_grid(row, col),
        v.cell(row, col) is Empty,
    ensures
        v.place(row, col, p).cell(row, col) == CellState::Occupied(p),
        !(v.place(row, col, p).cell(row, col) is Empty),
{
    lemma_place_frame(v, row, col, p);
}

/// A duplicate matches its source cell for cell at the moment of
/// duplication, and the two boards stay independent: a marking is modeled
/// by place on one board's model alone, which leaves the other model — and
/// every other cell of its own — exactly as it was.
pub proof fn lemma_duplicate_independent(a: GridView, b: GridView, row: int, col: int, p: PlayerId)
    requires
        a.wf(),
        a == b,
        a.in_grid(row, col),
    ensures
        forall|r: int, c: int| a.in_grid(r, c) ==> a.cell(r, c) == b.cell(r, c),
        a.place(row, col, p).cell(row, col) == CellState::Occupied(p),
        forall|r: int, c: int|
            a.in_grid(r, c) && !(r == row && c == col) ==> a.place(row, col, p).cell(r, c)
                == b.cell(r, c),
{
    lemma_place_frame(a, row, col, p);
}

/// The board: a grid of cells with fixed dimensions, marked one cell at a
/// time and never overwritten. The cells sit in one flat row-major vector.
pub struct Grid {
    pub inner: Vec<CellState>,
    pub column_count: usize,
    pub row_count: usize,
    pub to_win: u32,
}

impl View for Grid {
    type V = GridView;

    open spec fn view(&self) -> GridView {
        GridView {
            cells: self.inner@,
            rows: self.row_count as nat,
            cols: self.column_count as nat,
            to_win: self.to_win as nat,
        }
    }
}

impl Clone for Grid {
    /// The duplicate carries the same dimensions, the same winning run
    /// length, and the same cell contents; it shares no storage with the
    /// source, so mutating either afterwards never shows in the other.
    fn clone(&self) -> (g: Self)
        ensures
            g@ == self@,
    {
        let mut cells: Vec<CellState> = Vec::new();
        let mut i: usize = 0;
        while i < self.inner.len()
            invariant
                i <= self.inner.len(),
                cells@.len() == i,
                forall|j: int| 0 <= j < i ==> cells@[j] == self.inner@[j],
            decreases self.inner.len() - i,
        {
            cells.push(self.inner[i]);
            i = i + 1;
        }
        proof {
            assert(cells@ =~= self.inner@);
        }
        Grid {
            inner: cells,
            column_count: self.column_count,
            row_count: self.row_count,
            to_win: self.to_win,
        }
    }
}

impl Grid {
    /// A fresh board of the given dimensions with every cell free.
    pub fn new(row_count: usize, column_count: usize, streak_to_win: u32) -> (g: Grid)
        requires
            row_count >= 1,
            column_count >= 1,
            row_count * column_count <= usize::MAX,
        ensures
            g@.wf(),
            g@.rows == row_count,
            g@.cols == column_count,
            g@.to_win == streak_to_win,
            forall|i: int| 0 <= i < g@.cells.len() ==> g@.cells[i] is Empty,
    {
        let total = column_count * row_count;
        let mut inner: Vec<CellState> = Vec::new();
        while inner.len() < total
            invariant
                inner@.len() <= total,
                forall|i: int| 0 <= i < inner@.len() ==> inner@[i] is Empty,
            decreases total - inner.len(),
        {
            inner.push(CellState::Empty);
        }
        Grid { inner, column_count, row_count, to_win: streak_to_win }
    }

    /// The flat index of an in-bounds coordinate pair.
    fn calc_index(&self, row: usize, column: usize) -> (i: usize)
        requires
            self@.wf(),
            self@.in_grid(row as int, column as int),
        ensures
            i == self@.flat(row as int, column as int),
            i < self@.cells.len(),
    {
        proof {
            lemma_flat_bounds(self@, row as int, column as int);
        }
        column + row * self.column_count
    }

    /// Read one cell. Out-of-range coordinates are a caller error and are
    /// excluded up front.
    pub fn get_cell(&self, row: usize, column: usize) -> (c: &CellState)
        requires
            self@.wf(),
            self@.in_grid(row as int, column as int),
        ensures
            *c == self@.cell(row as int, column as int),
    {
        let i = self.calc_index(row, column);
        &self.inner[i]
    }

    /// Mark a free cell for a participant and report true; on a cell already
    /// marked, change nothing and report false. This refusal is the one
    /// recoverable error of the board model.
    pub fn set_cell(&mut self, row: usize, column: usize, player: PlayerId) -> (b: bool)
        requires
            old(self)@.wf(),
            old(self)@.in_grid(row as int, column as int),
        ensures
            b == (old(self)@.cell(row as int, column as int) is Empty),
            b ==> final(self)@ == old(self)@.place(row as int, column as int, player),
            !b ==> final(self)@ == old(self)@,
            final(self)@.wf(),
    {
        let i = self.calc_index(row, column);
        match self.inner[i] {
            CellState::Empty => {
                self.inner[i] = CellState::Occupied(player);
                proof {
                    assert(self@ =~= old(self)@.place(row as int, column as int, player));
                }
                true
            },
            CellState::Occupied(_) => false,
        }
    }

    /// The coordinates whose cell equals the given state, in row-major order:
    /// rows ascending, and columns ascending within a row.
    pub fn get_cells_with_state(&self, state: CellState) -> (res: Vec<(usize, usize)>)
        requires
            self@.wf(),
        ensures
            forall|k: int|
                0 <= k < res@.len() ==> self@.in_grid(res@[k].0 as int, res@[k].1 as int)
                    && self@.cell(res@[k].0 as int, res@[k].1 as int) == state,
            forall|k1: int, k2: int|
                0 <= k1 < k2 < res@.len() ==> self@.flat(res@[k1].0 as int, res@[k1].1 as int)
                    < self@.flat(res@[k2].0 as int, res@[k2].1 as int),
            forall|r: int, c: int|
                self@.in_grid(r, c) && self@.cell(r, c) == state ==> exists|k: int|
                    0 <= k < res@.len() && res@[k].0 as int == r && res@[k].1 as int == c,
    {
        let ghost v = self@;
        let mut result: Vec<(usize, usize)> = Vec::new();
        let mut row_nr: usize = 0;
        while row_nr < self.row_count
            invariant
                self@ == v,
                self@.wf(),
                row_nr <= self.row_count,
                forall|k: int|
                    0 <= k < result@.len() ==> v.in_grid(result@[k].0 as int, result@[k].1 as int)
                        && v.cell(result@[k].0 as int, result@[k].1 as int) == state
                        && v.flat(result@[k].0 as int, result@[k].1 as int) < v.flat(
                        row_nr as int,
                        0,
                    ),
                forall|k1: int, k2: int|
                    0 <= k1 < k2 < result@.len() ==> v.flat(
                        result@[k1].0 as int,
                        result@[k1].1 as int,
                    ) < v.flat(result@[k2].0 as int, result@[k2].1 as int),
                forall|r: int, c: int|
                    v.in_grid(r, c) && r < row_nr && v.cell(r, c) == state ==> exists|k: int|
                        0 <= k < result@.len() && result@[k].0 as int == r && result@[k].1 as int
                            == c,
            decreases self.row_count - row_nr,
        {
            proof {
                assert forall|r: int, c: int|
                    v.in_grid(r, c) && v.flat(r, c) < v.flat(row_nr as int, 0) implies r
                    < row_nr by {
                    if r >= row_nr {
                        assert(r * v.cols + c >= row_nr * v.cols) by (nonlinear_arith)
                            requires
                                r >= row_nr,
                                c >= 0,
                                v.cols >= 1,
                        ;
                    }
                }
            }
            let mut col_nr: usize = 0;
            while col_nr < self.column_count
                invariant
                    self@ == v,
                    self@.wf(),
                    row_nr < self.row_count,
                    col_nr <= self.column_count,
                    forall|k: int|
                        0 <= k < result@.len() ==> v.in_grid(
                            result@[k].0 as int,
                            result@[k].1 as int,
                        ) && v.cell(result@[k].0 as int, result@[k].1 as int) == state && v.flat(
                            result@[k].0 as int,
                            result@[k].1 as int,
                        ) < v.flat(row_nr as int, col_nr as int),
                    forall|k1: int, k2: int|
                        0 <= k1 < k2 < result@.len() ==> v.flat(
                            result@[k1].0 as int,
                            result@[k1].1 as int,
                        ) < v.flat(result@[k2].0 as int, result@[k2].1 as int),
                    forall|r: int, c: int|
                        v.in_grid(r, c) && v.flat(r, c) < v.flat(row_nr as int, col_nr as int)
                            && v.cell(r, c) == state ==> exists|k: int|
                            0 <= k < result@.len() && result@[k].0 as int == r && result@[k].1 as int
                                == c,
                decreases self.column_count - col_nr,
            {
                let ghost prev = result@;
                let cell = *self.get_cell(row_nr, col_nr);
                if cell == state {
                    result.push((row_nr, col_nr));
                    proof {
                        assert(result@ == prev.push((row_nr, col_nr)));
                    }
                }
                proof {
                    assert forall|r: int, c: int|
                        v.in_grid(r, c) && v.flat(r, c) < v.flat(row_nr as int, col_nr + 1)
                            && v.cell(r, c) == state implies exists|k: int|
                        0 <= k < result@.len() && result@[k].0 as int == r && result@[k].1 as int
                            == c by {
                        if v.flat(r, c) < v.flat(row_nr as int, col_nr as int) {
                            let k = choose|k: int|
                                0 <= k < prev.len() && prev[k].0 as int == r && prev[k].1 as int
                                    == c;
                            assert(result@[k].0 as int == r && result@[k].1 as int == c);
                        } else {
                            lemma_flat_injective_range(v, row_nr as int, col_nr as int, r, c);
                            assert(result@[result@.len() - 1].0 as int == r && result@[result@.len()
                                - 1].1 as int == c);
                        }
                    }
                }
                col_nr = col_nr + 1;
            }
            proof {
                assert forall|k: int| 0 <= k < result@.len() implies v.flat(
                    result@[k].0 as int,
                    result@[k].1 as int,
                ) < v.flat(row_nr + 1, 0) by {
                    assert(v.flat(result@[k].0 as int, result@[k].1 as int) < v.flat(
                        row_nr as int,
                        self.column_count as int,
                    ));
                    assert(v.flat(row_nr as int, v.cols as int) == v.flat(row_nr + 1, 0))
                        by (nonlinear_arith);
                }
                assert forall|r: int, c: int|
                    v.in_grid(r, c) && r < row_nr + 1 && v.cell(r, c) == state implies exists|
                    k: int,
                |
                    0 <= k < result@.len() && result@[k].0 as int == r && result@[k].1 as int
                        == c by {
                    assert(v.flat(r, c) < v.flat(row_nr as int, self.column_count as int)) by {
                        if r < row_nr {
                            assert(r * v.cols + c < row_nr * v.cols + v.cols) by (nonlinear_arith)
                                requires
                                    0 <= c < v.cols,
                                    r < row_nr,
                                    v.cols >= 1,
                            ;
                        }
                    }
                }
            }
            row_nr = row_nr + 1;
        }
        result
    }
}

/// If two in-bounds coordinates share one flat index they are the same
/// coordinates.
proof fn lemma_flat_injective_range(v: GridView, r1: int, c1: int, r2: int, c2: int)
    requires
        v.in_grid(r1, c1),
        v.in_grid(r2, c2),
        v.flat(r1, c1) == v.flat(r2, c2),
    ensures
        r1 == r2 && c1 == c2,
{
    if !(r1 == r2 && c1 == c2) {
        lemma_flat_injective(v, r1, c1, r2, c2);
    }
}

} // verus!
