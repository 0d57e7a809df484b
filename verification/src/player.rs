//! The state of one cell of the four-in-a-row board.

use vstd::prelude::*;
use vstd::std_specs::convert::{FromSpecImpl, TryFromSpecImpl};

verus! {

/// What a cell holds: nothing, a piece of the human, or a piece of the machine.
#[derive(Debug, PartialEq, Eq, Clone, Copy, Structural)]
pub enum Player {
    Unset,
    Human,
    Machine,
}

/// The index handed out when no move can be made.
pub const U_INVALID_INDEX: usize = 255;

/// [`U_INVALID_INDEX`] as the binding layer passes it on.
pub const INVALID_INDEX: i64 = 255;

/// Whether four cell states are the same.
pub fn many_eq(a: Player, b: Player, c: Player, d: Player) -> (r: bool)
    ensures
        r == (a == b && b == c && c == d),
{
    a == b && b == c && c == d
}

impl Player {
    /// The number that stands for this state: 0, 1 or 2.
    pub open spec fn code(self) -> int {
        match self {
            Player::Unset => 0,
            Player::Human => 1,
            Player::Machine => 2,
        }
    }

    /// The other side; an empty cell has none and is handed back.
    pub open spec fn opponent(self) -> Player {
        match self {
            Player::Unset => Player::Unset,
            Player::Human => Player::Machine,
            Player::Machine => Player::Human,
        }
    }

    /// The state that a number stands for, if it is 0, 1 or 2.
    pub open spec fn decode(value: u8) -> Option<Player> {
        if value == 0 {
            Some(Player::Unset)
        } else if value == 1 {
            Some(Player::Human)
        } else if value == 2 {
            Some(Player::Machine)
        } else {
            None
        }
    }

    /// The number that stands for this state, as a byte.
    pub fn to_u8(self) -> (r: u8)
        ensures
            r == self.code(),
            Player::decode(r) == Some(self),
    {
        match self {
            Player::Unset => 0,
            Player::Human => 1,
            Player::Machine => 2,
        }
    }
}

impl From<Player> for i8 {
    /// The number that stands for the state: 0, 1 or 2.
    fn from(value: Player) -> (r: i8) {
        match value {
            Player::Unset => 0,
            Player::Human => 1,
            Player::Machine => 2,
        }
    }
}

impl FromSpecImpl<Player> for i8 {
    open spec fn obeys_from_spec() -> bool {
        true
    }

    open spec fn from_spec(value: Player) -> i8 {
        match value {
            Player::Unset => 0i8,
            Player::Human => 1i8,
            Player::Machine => 2i8,
        }
    }
}

impl TryFrom<u8> for Player {
    type Error = &'static str;

    /// The state that a number stands for; numbers above 2 stand for none.
    fn try_from(value: u8) -> (r: Result<Self, Self::Error>) {
        match value {
            0 => Ok(Player::Unset),
            1 => Ok(Player::Human),
            2 => Ok(Player::Machine),
            _ => Err("Player only accepts 0, 1, or 2!"),
        }
    }
}

impl TryFromSpecImpl<u8> for Player {
    open spec fn obeys_try_from_spec() -> bool {
        true
    }

    open spec fn try_from_spec(value: u8) -> Result<Self, Self::Error> {
        match Player::decode(value) {
            Some(p) => Ok(p),
            None => Err("Player only accepts 0, 1, or 2!"),
        }
    }
}

} // verus!
