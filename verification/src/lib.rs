pub mod ai;
pub mod game;
pub mod grid;
pub mod laws;
pub mod players;
