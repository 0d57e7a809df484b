//! Move selection for two small board games: a 7x6 four-in-a-row game and a
//! 3x3 tic-tac-toe game.
//!
//! Every executable function carries a contract over the mathematical model
//! of the board, and the search is proved to return the value of the plain
//! minimax recursion it prunes.

pub mod common;
pub mod games;
pub mod player;

pub use player::{many_eq, Player, INVALID_INDEX, U_INVALID_INDEX};
