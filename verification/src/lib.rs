//! A verified model of the Threes! tile game: the board and its shifts, the
//! draw pile, the game state, the integer features that a solver weighs, and
//! the reading of generator seeds.
pub mod algo;
pub mod batch;
pub mod board_state;
pub mod draw_pile;
pub mod game_state;
pub mod laws;
pub mod line;
pub mod play;
pub mod rng;
pub mod seed;
pub mod solver;
pub mod text;
