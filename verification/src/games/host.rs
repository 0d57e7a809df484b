//! The operations on the four-in-a-row board that a host program calls with
//! values it has not checked. Each one turns a bad value down with an
//! [`InputError`] and leaves the board as it was.

use crate::games::connect_four::{ConnectFour, AiCells};
use crate::games::lines::{no_line, wins_at};
use crate::games::search::is_best_move;
use crate::player::Player;
use vstd::prelude::*;

verus! {

/// Why a value from the host was turned down.
#[derive(Debug, PartialEq, Eq, Clone, Copy, Structural)]
pub enum InputError {
    /// The board was not given as 42 numbers.
    Length,
    /// A number of the board is not 0, 1 or 2.
    Cell,
    /// The column is below zero.
    Negative,
    /// The column is 7 or more.
    TooLarge,
    /// The column takes no more pieces.
    ColumnFull,
    /// The move names no player.
    NoPlayer,
    /// The depth is below zero or above 255.
    Depth,
    /// Somebody already has four in a line.
    Decided,
}

impl InputError {
    /// The text of the error.
    pub open spec fn text(self) -> Seq<char> {
        match self {
            InputError::Length => "data must have exactly 42 numbers"@,
            InputError::Cell => "Player only accepts 0, 1, or 2!"@,
            InputError::Negative => "column must be a positive number"@,
            InputError::TooLarge => "column must be lower than 7"@,
            InputError::ColumnFull => "The assertion [self.remaining[c] > 0] failed"@,
            InputError::NoPlayer => "player must be 1 or 2"@,
            InputError::Depth => "depth must lie between 0 and 255"@,
            InputError::Decided => "the game is already decided"@,
        }
    }

    /// The text of the error, for the host to show.
    pub fn message(&self) -> (r: String)
        ensures
            r@ == self.text(),
    {
        match self {
            InputError::Length => "data must have exactly 42 numbers".to_owned(),
            InputError::Cell => "Player only accepts 0, 1, or 2!".to_owned(),
            InputError::Negative => "column must be a positive number".to_owned(),
            InputError::TooLarge => "column must be lower than 7".to_owned(),
            InputError::ColumnFull => "The assertion [self.remaining[c] > 0] failed".to_owned(),
            InputError::NoPlayer => "player must be 1 or 2".to_owned(),
            InputError::Depth => "depth must lie between 0 and 255".to_owned(),
            InputError::Decided => "the game is already decided".to_owned(),
        }
    }
}

/// Every number stands for a cell state.
pub open spec fn all_decode(values: Seq<u8>) -> bool {
    forall|i: int| 0 <= i < values.len() ==> #[trigger] values[i] <= 2
}

/// The column that a host number names, or why it names none.
pub open spec fn column_of(column: i32) -> Result<int, InputError> {
    if column < 0 {
        Err(InputError::Negative)
    } else if column >= 7 {
        Err(InputError::TooLarge)
    } else {
        Ok(column as int)
    }
}

/// Checks a column number from the host.
pub fn check_column(column: i32) -> (r: Result<usize, InputError>)
    ensures
        match r {
            Ok(c) => column_of(column) == Ok::<int, InputError>(c as int),
            Err(e) => column_of(column) == Err::<int, InputError>(e),
        },
{
    if column < 0 {
        Err(InputError::Negative)
    } else if column >= 7 {
        Err(InputError::TooLarge)
    } else {
        Ok(column as usize)
    }
}

impl ConnectFour {
    /// Builds a board from what the host gives: the empty board for nothing,
    /// else the board whose 42 cells are the given numbers (0 for an empty
    /// cell, 1 for the human, 2 for the machine).
    pub fn js_new(values: Option<Vec<u8>>) -> (r: Result<Self, InputError>)
        ensures
            match values {
                None => r is Ok && r->Ok_0.empty == 42 && forall|i: int|
                    0 <= i < 42 ==> r->Ok_0.cells@[i] == Player::Unset,
                Some(v) => match r {
                    Ok(board) => v@.len() == 42 && forall|i: int|
                        0 <= i < 42 ==> Player::decode(#[trigger] v@[i]) == Some(board.cells@[i]),
                    Err(e) => if v@.len() != 42 {
                        e == InputError::Length
                    } else {
                        e == InputError::Cell && !all_decode(v@)
                    },
                },
            },
            r is Ok ==> r->Ok_0.wf() && r->Ok_0@.topped(),
    {
        let input: Vec<u8> = match values {
            Some(input) => input,
            None => {
                let board = ConnectFour { cells: [Player::Unset;42], remaining: [6u8;7], empty: 42 };
                proof {
                    assert(board@.wf());
                }
                return Ok(board);
            },
        };
        if input.len() != 42 {
            return Err(InputError::Length);
        }
        let mut cells: AiCells = [Player::Unset;42];
        let mut i: usize = 0;
        while i < 42
            invariant
                i <= 42,
                values == Some(input),
                input@.len() == 42,
                forall|k: int| 0 <= k < i ==> Player::decode(#[trigger] input@[k]) == Some(cells@[k]),
            decreases 42 - i,
        {
            match Player::try_from(input[i]) {
                Ok(player) => {
                    cells[i] = player;
                },
                Err(_) => {
                    assert(input@[i as int] > 2);
                    return Err(InputError::Cell);
                },
            }
            i += 1;
        }
        Ok(ConnectFour::new(cells))
    }

    /// The cells as numbers, row after row from the top.
    pub fn js_get_board(&self) -> (r: Vec<u8>)
        ensures
            r@.len() == 42,
            forall|i: int| 0 <= i < 42 ==> #[trigger] r@[i] == self.cells@[i].code(),
    {
        let mut out: Vec<u8> = Vec::new();
        let mut i: usize = 0;
        while i < 42
            invariant
                i <= 42,
                out@.len() == i,
                forall|k: int| 0 <= k < i ==> #[trigger] out@[k] == self.cells@[k].code(),
            decreases 42 - i,
        {
            out.push(self.cells[i].to_u8());
            i += 1;
        }
        out
    }

    /// Whether a piece can still be dropped into the column that the host
    /// names.
    pub fn js_available(&self, column: i32) -> (r: Result<bool, InputError>)
        ensures
            match r {
                Ok(free) => column_of(column) is Ok && free == self@.available(column as int),
                Err(e) => column_of(column) == Err::<int, InputError>(e),
            },
    {
        match check_column(column) {
            Ok(c) => Ok(self.available(c)),
            Err(e) => Err(e),
        }
    }

    /// Whether no free cell is left.
    pub fn js_finished(&self) -> (r: bool)
        ensures
            r == (self.empty == 0),
    {
        self.empty == 0
    }

    /// Drops a piece of `player` into the column that the host names and
    /// says whether it closed a line of four. The move is turned down, and
    /// the board left as it was, where the column is out of range or full or
    /// `player` is no player.
    pub fn js_add(&mut self, column: i32, player: Player) -> (r: Result<bool, InputError>)
        requires
            old(self).wf(),
        ensures
            final(self).wf(),
            match r {
                Ok(won) => {
                    &&& column_of(column) is Ok
                    &&& old(self)@.available(column as int)
                    &&& player != Player::Unset
                    &&& final(self)@ == old(self)@.play(column as int, player)
                    &&& won == wins_at(final(self).cells@, old(self)@.landing(column as int))
                },
                Err(e) => {
                    &&& *final(self) == *old(self)
                    &&& match column_of(column) {
                        Err(f) => e == f,
                        Ok(c) => if !old(self)@.available(c) {
                            e == InputError::ColumnFull
                        } else {
                            e == InputError::NoPlayer && player == Player::Unset
                        },
                    }
                },
            },
    {
        let c = match check_column(column) {
            Ok(c) => c,
            Err(e) => {
                return Err(e);
            },
        };
        if !self.available(c) {
            return Err(InputError::ColumnFull);
        }
        if player == Player::Unset {
            return Err(InputError::NoPlayer);
        }
        let offset = self.piece_offset(c);
        proof {
            crate::games::connect_four::lemma_play_keeps_wf(self@, c as int, player);
        }
        self.add(c, offset, player);
        Ok(self.status(offset))
    }

    /// The machine's move, searched as deep as the host asks (5 moves where
    /// it does not say). The call is turned down where the depth does not
    /// fit in a byte or somebody already has four in a line.
    pub fn js_get_best_move(&mut self, depth: Option<i32>) -> (r: Result<i32, InputError>)
        requires
            old(self).wf(),
        ensures
            *final(self) == *old(self),
            match r {
                Ok(column) => {
                    &&& depth is Some ==> 0 <= depth->Some_0 <= 255
                    &&& no_line(old(self).cells@)
                    &&& is_best_move(
                        old(self)@,
                        (if depth is Some {
                            depth->Some_0
                        } else {
                            5
                        }) as nat,
                        column as int,
                    )
                },
                Err(e) => if depth is Some && !(0 <= depth->Some_0 <= 255) {
                    e == InputError::Depth
                } else {
                    e == InputError::Decided && !no_line(old(self).cells@)
                },
            },
    {
        let asked: i32 = match depth {
            Some(d) => d,
            None => 5,
        };
        if asked < 0 || asked > 255 {
            return Err(InputError::Depth);
        }
        if self.decided() {
            return Err(InputError::Decided);
        }
        let column = self.get_best_move(asked as u8);
        Ok(column as i32)
    }
}

} // verus!
