pub mod game;
pub mod player;
