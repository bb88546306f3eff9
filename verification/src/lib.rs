//! Tic-tac-toe on a 3×3 grid.
//!
//! - [`mark`]: the two marks.
//! - [`board`]: the board, the state of the game on it, and legal moves.
//! - [`search`]: the exhaustive search for the best move.
//! - [`game`]: one round of a game against the search.
//! - [`laws`]: what holds of all boards, moves and searches.

pub mod board;
pub mod game;
pub mod laws;
pub mod mark;
pub mod search;
