//! Items shared by the smaller game.

pub mod players;
