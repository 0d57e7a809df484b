//! The four-in-a-row board: its cells, the free rows of each column, and the
//! moves that are made and taken back on it.

use crate::player::Player;
use vstd::prelude::*;

verus! {

/// The number of columns.
pub const BOARD_WIDTH: usize = 7;

/// The number of rows.
pub const BOARD_HEIGHT: usize = 6;

/// The number of cells.
pub const BOARD_CELLS: usize = 42;

/// The score of a position that the human has won.
pub const OUTCOME_HUMAN_WINS: i32 = -999_999_999;

/// The score of a position that the machine has won.
pub const OUTCOME_MACHINE_WINS: i32 = 999_999_999;

/// The score of a full board on which nobody has won.
pub const OUTCOME_DRAW: i32 = 0;

/// The cells of a board, row after row from the top.
pub type AiCells = [Player; BOARD_CELLS];

/// For each column, the number of pieces it still takes.
pub type AiRemaining = [u8; BOARD_WIDTH];

/// The index of the cell in `row` (0 is the top) and `column` (0 is the left).
pub open spec fn cell_of(row: int, column: int) -> int {
    row * 7 + column
}

/// The mathematical model of a board: 42 cells, row after row from the top,
/// and for each of the 7 columns the number of rows that pieces can still
/// fall into.
pub struct Position {
    pub cells: Seq<Player>,
    pub remaining: Seq<u8>,
}

impl Position {
    /// The lengths fit, no column claims more than 6 free rows, and the rows
    /// that a column counts as free are empty.
    pub open spec fn wf(self) -> bool {
        &&& self.cells.len() == 42
        &&& self.remaining.len() == 7
        &&& forall|c: int| 0 <= c < 7 ==> #[trigger] self.remaining[c] <= 6
        &&& forall|y: int, c: int|
            0 <= c < 7 && 0 <= y < self.remaining[c] ==> self.cells[#[trigger] cell_of(y, c)]
                == Player::Unset
    }

    /// The free rows of every column are all the empty cells it has: below
    /// them every cell is taken.
    pub open spec fn settled(self) -> bool {
        forall|y: int, c: int|
            0 <= c < 7 && self.remaining[c] <= y < 6 ==> self.cells[#[trigger] cell_of(y, c)]
                != Player::Unset
    }

    /// Right below the free rows of each column lies a piece, or the bottom
    /// of the board: a well-formed column counts as free exactly the empty
    /// cells above its topmost piece.
    pub open spec fn topped(self) -> bool {
        forall|c: int|
            0 <= c < 7 && #[trigger] self.remaining[c] < 6 ==> self.cells[cell_of(
                self.remaining[c] as int,
                c,
            )] != Player::Unset
    }

    /// A piece can still be dropped into `column`.
    pub open spec fn available(self, column: int) -> bool {
        self.remaining[column] > 0
    }

    /// The cell in which the next piece dropped into `column` comes to rest.
    pub open spec fn landing(self, column: int) -> int {
        (self.remaining[column] - 1) * 7 + column
    }

    /// The number of free rows over all columns.
    pub open spec fn free(self) -> int {
        self.remaining[0] + self.remaining[1] + self.remaining[2] + self.remaining[3]
            + self.remaining[4] + self.remaining[5] + self.remaining[6]
    }

    /// No column takes another piece.
    pub open spec fn full(self) -> bool {
        self.free() == 0
    }

    /// The board after `player` was written into cell `offset` and one free
    /// row was taken from `column`.
    pub open spec fn put(self, column: int, offset: int, player: Player) -> Position {
        Position {
            cells: self.cells.update(offset, player),
            remaining: self.remaining.update(column, (self.remaining[column] - 1) as u8),
        }
    }

    /// The board after cell `offset` was emptied and one free row was given
    /// back to `column`.
    pub open spec fn take(self, column: int, offset: int) -> Position {
        Position {
            cells: self.cells.update(offset, Player::Unset),
            remaining: self.remaining.update(column, (self.remaining[column] + 1) as u8),
        }
    }

    /// The board after `player` dropped a piece into `column`.
    pub open spec fn play(self, column: int, player: Player) -> Position {
        self.put(column, self.landing(column), player)
    }

    /// The piece in cell `last` lies on top of its column.
    pub open spec fn on_top(self, last: int) -> bool {
        0 <= last < 42 && self.cells[last] != Player::Unset && self.remaining[last % 7] == last / 7
    }
}

/// 1 where the cell in `row` and `column` is empty, else 0.
pub open spec fn empty_at(cells: Seq<Player>, row: int, column: int) -> int {
    if cells[cell_of(row, column)] == Player::Unset {
        1
    } else {
        0
    }
}

/// The number of empty cells in `column`.
pub open spec fn empty_in_column(cells: Seq<Player>, column: int) -> int {
    empty_at(cells, 0, column) + empty_at(cells, 1, column) + empty_at(cells, 2, column) + empty_at(
        cells,
        3,
        column,
    ) + empty_at(cells, 4, column) + empty_at(cells, 5, column)
}

/// On a settled board the free rows of a column are its empty cells, and
/// they lie above its pieces.
pub proof fn lemma_settled_counts(pos: Position, column: int)
    requires
        pos.wf(),
        pos.settled(),
        0 <= column < 7,
    ensures
        pos.remaining[column] == empty_in_column(pos.cells, column),
        forall|row: int|
            0 <= row < 6 ==> (pos.cells[#[trigger] cell_of(row, column)] == Player::Unset <==> row
                < pos.remaining[column]),
{
    assert(pos.remaining[column] <= 6);
    assert forall|row: int| 0 <= row < 6 implies (pos.cells[#[trigger] cell_of(row, column)]
        == Player::Unset <==> row < pos.remaining[column]) by {
        if row < pos.remaining[column] {
            assert(pos.cells[cell_of(row, column)] == Player::Unset);
        } else {
            assert(pos.cells[cell_of(row, column)] != Player::Unset);
        }
    }
    assert(empty_at(pos.cells, 0, column) == if 0 < pos.remaining[column] { 1int } else { 0 });
    assert(empty_at(pos.cells, 1, column) == if 1 < pos.remaining[column] { 1int } else { 0 });
    assert(empty_at(pos.cells, 2, column) == if 2 < pos.remaining[column] { 1int } else { 0 });
    assert(empty_at(pos.cells, 3, column) == if 3 < pos.remaining[column] { 1int } else { 0 });
    assert(empty_at(pos.cells, 4, column) == if 4 < pos.remaining[column] { 1int } else { 0 });
    assert(empty_at(pos.cells, 5, column) == if 5 < pos.remaining[column] { 1int } else { 0 });
}

/// Taking a piece back from where it was put restores the board: the cells
/// and the free rows of every column are what they were.
pub proof fn lemma_take_undoes_put(pos: Position, column: int, offset: int, player: Player)
    requires
        pos.wf(),
        0 <= column < 7,
        pos.available(column),
        0 <= offset < 42,
        pos.cells[offset] == Player::Unset,
    ensures
        pos.put(column, offset, player).take(column, offset) == pos,
{
    let back = pos.put(column, offset, player).take(column, offset);
    assert(pos.remaining[column] <= 6);
    assert(back.cells =~= pos.cells);
    assert(back.remaining =~= pos.remaining);
}

/// Dropping a piece into a column that takes one keeps the board well formed,
/// uses up one free row, and leaves the piece on top of its column.
pub proof fn lemma_play_keeps_wf(pos: Position, column: int, player: Player)
    requires
        pos.wf(),
        0 <= column < 7,
        pos.available(column),
    ensures
        0 <= pos.landing(column) < 42,
        pos.landing(column) / 7 == pos.remaining[column] - 1,
        pos.landing(column) % 7 == column,
        pos.cells[pos.landing(column)] == Player::Unset,
        pos.play(column, player).wf(),
        pos.play(column, player).free() == pos.free() - 1,
        pos.play(column, player).take(column, pos.landing(column)) == pos,
        player != Player::Unset ==> pos.play(column, player).on_top(pos.landing(column)),
        player != Player::Unset && pos.settled() ==> pos.play(column, player).settled(),
{
    let offset = pos.landing(column);
    let next = pos.play(column, player);
    assert(pos.remaining[column] <= 6);
    assert(offset == cell_of(pos.remaining[column] - 1, column));
    assert forall|y: int, c: int| 0 <= c < 7 && 0 <= y < next.remaining[c] implies next.cells[
        #[trigger] cell_of(y, c)] == Player::Unset by {
        assert(pos.remaining[c] <= 6);
        assert(pos.cells[cell_of(y, c)] == Player::Unset);
    }
    assert forall|c: int| 0 <= c < 7 implies #[trigger] next.remaining[c] <= 6 by {
        assert(pos.remaining[c] <= 6);
    }
    lemma_take_undoes_put(pos, column, offset, player);
    if player != Player::Unset && pos.settled() {
        assert forall|y: int, c: int| 0 <= c < 7 && next.remaining[c] <= y < 6 implies next.cells[
            #[trigger] cell_of(y, c)] != Player::Unset by {
            if cell_of(y, c) != offset {
                assert(pos.cells[cell_of(y, c)] != Player::Unset);
            }
        }
    }
}

/// Taking the topmost piece of a column back keeps the board well formed and
/// gives one free row back.
pub proof fn lemma_take_keeps_wf(pos: Position, column: int)
    requires
        pos.wf(),
        0 <= column < 7,
        pos.remaining[column] < 6,
    ensures
        pos.take(column, cell_of(pos.remaining[column] as int, column)).wf(),
        pos.take(column, cell_of(pos.remaining[column] as int, column)).free() == pos.free() + 1,
        pos.settled() ==> pos.take(column, cell_of(pos.remaining[column] as int, column)).settled(),
{
    let offset = cell_of(pos.remaining[column] as int, column);
    let next = pos.take(column, offset);
    assert forall|y: int, c: int| 0 <= c < 7 && 0 <= y < next.remaining[c] implies next.cells[
        #[trigger] cell_of(y, c)] == Player::Unset by {
        assert(pos.remaining[c] <= 6);
        if cell_of(y, c) != offset {
            assert(pos.cells[cell_of(y, c)] == Player::Unset);
        }
    }
    assert forall|c: int| 0 <= c < 7 implies #[trigger] next.remaining[c] <= 6 by {
        assert(pos.remaining[c] <= 6);
    }
    if pos.settled() {
        assert forall|y: int, c: int| 0 <= c < 7 && next.remaining[c] <= y < 6 implies next.cells[
            #[trigger] cell_of(y, c)] != Player::Unset by {
            assert(pos.cells[cell_of(y, c)] != Player::Unset);
        }
    }
}

/// The four-in-a-row board.
///
/// `cells` holds the 42 cells row after row, the top row first. `remaining`
/// holds for each column how many pieces it still takes, and `empty` the sum
/// of these.
pub struct ConnectFour {
    pub cells: AiCells,
    pub remaining: AiRemaining,
    pub empty: u8,
}

impl View for ConnectFour {
    type V = Position;

    open spec fn view(&self) -> Position {
        Position { cells: self.cells@, remaining: self.remaining@ }
    }
}

impl ConnectFour {
    /// The model is well formed and `empty` counts its free rows.
    pub open spec fn wf(&self) -> bool {
        self@.wf() && self.empty == self@.free()
    }

    /// Counts the leading empty cells of one column, from the top.
    fn free_rows(cells: &AiCells, column: usize) -> (rows: u8)
        requires
            column < 7,
        ensures
            rows <= 6,
            forall|y: int| 0 <= y < rows ==> cells@[#[trigger] cell_of(y, column as int)] == Player::Unset,
            rows < 6 ==> cells@[cell_of(rows as int, column as int)] != Player::Unset,
    {
        let mut rows: u8 = 0;
        while rows < 6 && cells[rows as usize * BOARD_WIDTH + column] == Player::Unset
            invariant
                rows <= 6,
                column < 7,
                forall|y: int| 0 <= y < rows ==> cells@[#[trigger] cell_of(y, column as int)] == Player::Unset,
            decreases 6 - rows,
        {
            assert(rows as int * 7 + column == cell_of(rows as int, column as int));
            rows += 1;
        }
        rows
    }

    /// Builds the board from its cells. Each column takes as many pieces as
    /// it has empty cells above its topmost piece.
    pub fn new(cells: AiCells) -> (board: Self)
        ensures
            board.cells == cells,
            board.wf(),
            board@.topped(),
    {
        let mut remaining: AiRemaining = [0u8;7];
        let mut column: usize = 0;
        while column < BOARD_WIDTH
            invariant
                column <= 7,
                forall|c: int| 0 <= c < column ==> #[trigger] remaining@[c] <= 6,
                forall|y: int, c: int|
                    0 <= c < column && 0 <= y < remaining@[c] ==> cells@[#[trigger] cell_of(y, c)]
                        == Player::Unset,
                forall|c: int|
                    0 <= c < column && #[trigger] remaining@[c] < 6 ==> cells@[cell_of(
                        remaining@[c] as int,
                        c,
                    )] != Player::Unset,
            decreases 7 - column,
        {
            let rows = Self::free_rows(&cells, column);
            remaining[column] = rows;
            column += 1;
        }
        let empty = remaining[0] + remaining[1] + remaining[2] + remaining[3] + remaining[4]
            + remaining[5] + remaining[6];
        ConnectFour { cells, remaining, empty }
    }

    /// Whether the board is well formed: the free rows of every column are
    /// at most 6 and empty, and `empty` is their sum.
    pub fn valid(&self) -> (r: bool)
        ensures
            r == self.wf(),
    {
        let mut column: usize = 0;
        let mut free: u8 = 0;
        while column < BOARD_WIDTH
            invariant
                column <= 7,
                free <= 6 * column,
                forall|c: int| 0 <= c < column ==> #[trigger] self.remaining@[c] <= 6,
                forall|y: int, c: int|
                    0 <= c < column && 0 <= y < self.remaining@[c] ==> self.cells@[#[trigger] cell_of(
                        y,
                        c,
                    )] == Player::Unset,
                free == (if column > 0 { self.remaining@[0] as int } else { 0 }) + (if column > 1 {
                    self.remaining@[1] as int
                } else {
                    0
                }) + (if column > 2 { self.remaining@[2] as int } else { 0 }) + (if column > 3 {
                    self.remaining@[3] as int
                } else {
                    0
                }) + (if column > 4 { self.remaining@[4] as int } else { 0 }) + (if column > 5 {
                    self.remaining@[5] as int
                } else {
                    0
                }) + (if column > 6 { self.remaining@[6] as int } else { 0 }),
            decreases 7 - column,
        {
            let rows = self.remaining[column];
            if rows > 6 {
                return false;
            }
            let mut y: u8 = 0;
            while y < rows
                invariant
                    y <= rows <= 6,
                    column < 7,
                    rows == self.remaining@[column as int],
                    forall|k: int|
                        0 <= k < y ==> self.cells@[#[trigger] cell_of(k, column as int)]
                            == Player::Unset,
                decreases rows - y,
            {
                if self.cells[y as usize * BOARD_WIDTH + column] != Player::Unset {
                    assert(self.cells@[cell_of(y as int, column as int)] != Player::Unset);
                    return false;
                }
                y += 1;
            }
            free += rows;
            column += 1;
        }
        free == self.empty
    }

    /// Whether a piece can still be dropped into `column`.
    pub fn available(&self, column: usize) -> (r: bool)
        requires
            column < 7,
        ensures
            r == self@.available(column as int),
    {
        self.remaining[column] > 0
    }

    /// The cell in which the next piece dropped into `column` comes to rest.
    pub fn piece_offset(&self, column: usize) -> (offset: usize)
        requires
            column < 7,
            self@.available(column as int),
        ensures
            offset == self@.landing(column as int),
    {
        (self.remaining[column] as usize - 1) * BOARD_WIDTH + column
    }

    /// Writes `player` into cell `offset` and takes one free row from
    /// `column`.
    pub fn add(&mut self, column: usize, offset: usize, player: Player)
        requires
            old(self).wf(),
            column < 7,
            old(self)@.available(column as int),
            offset < 42,
            old(self).cells@[offset as int] == Player::Unset,
        ensures
            final(self)@ == old(self)@.put(column as int, offset as int, player),
            final(self).empty == old(self).empty - 1,
            offset == old(self)@.landing(column as int) ==> final(self).wf(),
            offset == old(self)@.landing(column as int) && player != Player::Unset && old(
                self,
            )@.settled() ==> final(self)@.settled(),
    {
        proof {
            assert(self.remaining@[column as int] <= 6);
            if offset == self@.landing(column as int) {
                lemma_play_keeps_wf(self@, column as int, player);
            }
        }
        self.remaining[column] -= 1;
        self.cells[offset] = player;
        self.empty -= 1;
    }

    /// Empties cell `offset` and gives one free row back to `column`.
    pub fn remove(&mut self, column: usize, offset: usize)
        requires
            old(self).wf(),
            column < 7,
            old(self).remaining@[column as int] != 6,
            offset < 42,
            old(self).cells@[offset as int] != Player::Unset,
        ensures
            final(self)@ == old(self)@.take(column as int, offset as int),
            final(self).empty == old(self).empty + 1,
            offset == cell_of(old(self).remaining@[column as int] as int, column as int)
                ==> final(self).wf(),
            offset == cell_of(old(self).remaining@[column as int] as int, column as int) && old(
                self,
            )@.settled() ==> final(self)@.settled(),
    {
        proof {
            assert(self.remaining@[column as int] <= 6);
            assert(forall|c: int| 0 <= c < 7 ==> #[trigger] self.remaining@[c] <= 6);
            if offset == cell_of(self.remaining@[column as int] as int, column as int) {
                lemma_take_keeps_wf(self@, column as int);
            }
        }
        self.remaining[column] += 1;
        self.cells[offset] = Player::Unset;
        self.empty += 1;
    }
}

} // verus!
