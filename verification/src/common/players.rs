//! The state of one cell of the tic-tac-toe board.

use vstd::prelude::*;
use vstd::std_specs::convert::TryFromSpecImpl;

verus! {

/// What a cell holds: nothing, a piece of the human player, or a piece of the
/// machine.
#[derive(Debug, PartialEq, Eq, Clone, Copy, Structural)]
pub enum Players {
    Unset,
    Player,
    Machine,
}

/// The largest index that a signed 64-bit host number can carry.
pub const INVALID_INDEX: usize = i64::MAX as usize;

impl Players {
    /// The state that a number stands for, if it is 0, 1 or 2.
    pub open spec fn decode(value: u8) -> Option<Players> {
        if value == 0 {
            Some(Players::Unset)
        } else if value == 1 {
            Some(Players::Player)
        } else if value == 2 {
            Some(Players::Machine)
        } else {
            None
        }
    }
}

impl TryFrom<u8> for Players {
    type Error = &'static str;

    /// The state that a number stands for; numbers above 2 stand for none.
    fn try_from(value: u8) -> (r: Result<Self, Self::Error>) {
        match value {
            0 => Ok(Players::Unset),
            1 => Ok(Players::Player),
            2 => Ok(Players::Machine),
            _ => Err("Players only accepts 0, 1, or 2!"),
        }
    }
}

impl TryFromSpecImpl<u8> for Players {
    open spec fn obeys_try_from_spec() -> bool {
        true
    }

    open spec fn try_from_spec(value: u8) -> Result<Self, Self::Error> {
        match Players::decode(value) {
            Some(p) => Ok(p),
            None => Err("Players only accepts 0, 1, or 2!"),
        }
    }
}

} // verus!
