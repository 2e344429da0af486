pub mod grid;
pub mod grid_observer;

use vstd::prelude::*;

verus! {

/// Identifies one participant in the game. No registry is kept: any two
/// distinct numbers denote distinct participants, and equality is by value.
#[derive(Debug, Copy, Clone, PartialEq, Eq, Structural)]
pub struct PlayerId(pub u32);

/// The contents of one board cell: occupied by one participant, or still
/// empty. A cell moves from `Empty` to `Occupied` at most once over its
/// lifetime.
#[derive(Debug, Copy, Clone, PartialEq, Eq, Structural)]
pub enum CellState {
    Occupied(PlayerId),
    Empty,
}

/// The judgment of one board snapshot: won by a participant, drawn
/// (every cell taken, nobody won), or still in progress.
#[derive(Debug, Copy, Clone, PartialEq, Eq, Structural)]
pub enum GameState {
    Win(PlayerId),
    Draw,
    Mid,
}

impl GameState {
    /// True exactly when the game has a winner.
    pub fn is_some(&self) -> (r: bool)
        ensures
            r == (self is Win),
    {
        match *self {
            GameState::Draw => false,
            GameState::Mid => false,
            _ => true,
        }
    }

    /// True exactly when the game has no winner.
    pub fn is_none(&self) -> (r: bool)
        ensures
            r == !(self is Win),
    {
        !self.is_some()
    }
}

} // verus!
