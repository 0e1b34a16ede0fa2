pub mod ai;
pub mod board;
pub mod player;
