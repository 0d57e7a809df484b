//! The two games.

pub mod connect_four;
pub mod heuristic;
pub mod host;
pub mod lines;
pub mod search;
pub mod tic_tac_toe;
