pub mod ki;

use vstd::prelude::*;

use crate::game::PlayerId;
use crate::game::grid::Grid;

verus! {

/// A capability that applies exactly one legal move to a board on request.
/// The automated engine implements it here; an interactive mover outside the
/// library is another implementation.
pub trait Player {
    /// The participant on whose behalf this mover plays.
    spec fn participant(&self) -> PlayerId;

    /// Mark exactly one previously free cell for this mover's participant.
    /// It must only be invoked while the board is still in progress.
    fn make_turn(&self, grid: &mut Grid)
        requires
            old(grid)@.wf(),
            old(grid)@.to_win >= 1,
            crate::game::grid_observer::in_progress(old(grid)@),
            old(grid)@.rows * old(grid)@.cols <= u32::MAX,
        ensures
            final(grid)@.wf(),
            exists|rc: (usize, usize)|
                {
                    &&& old(grid)@.in_grid(rc.0 as int, rc.1 as int)
                    &&& old(grid)@.cell(rc.0 as int, rc.1 as int) is Empty
                    &&& final(grid)@ == old(grid)@.place(
                        rc.0 as int,
                        rc.1 as int,
                        self.participant(),
                    )
                },
    ;
}

} // verus!
