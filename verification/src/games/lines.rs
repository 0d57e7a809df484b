//! Win detection on the four-in-a-row board: whether the piece in one cell
//! closes a line of four.

use crate::games::connect_four::{cell_of, ConnectFour, Position, BOARD_CELLS};
use crate::player::{many_eq, Player};
use itertools::{Itertools, MinMaxResult};
use vstd::prelude::*;

verus! {

/// For each cell, how many of the three cells below it exist.
pub const AVAILABLE_BOTTOM: [u8; BOARD_CELLS] = [
    0b0011, 0b0011, 0b0011, 0b0011, 0b0011, 0b0011, 0b0011,
    0b0011, 0b0011, 0b0011, 0b0011, 0b0011, 0b0011, 0b0011,
    0b0011, 0b0011, 0b0011, 0b0011, 0b0011, 0b0011, 0b0011,
    0b0010, 0b0010, 0b0010, 0b0010, 0b0010, 0b0010, 0b0010,
    0b0001, 0b0001, 0b0001, 0b0001, 0b0001, 0b0001, 0b0001,
    0b0000, 0b0000, 0b0000, 0b0000, 0b0000, 0b0000, 0b0000,
];

/// For each cell, how many of the three cells to its left exist (the two high
/// bits) and how many of the three to its right (the two low bits).
pub const AVAILABLE_HORIZONTAL: [u8; BOARD_CELLS] = [
    0b0011, 0b0111, 0b1011, 0b1111, 0b1110, 0b1101, 0b1100,
    0b0011, 0b0111, 0b1011, 0b1111, 0b1110, 0b1101, 0b1100,
    0b0011, 0b0111, 0b1011, 0b1111, 0b1110, 0b1101, 0b1100,
    0b0011, 0b0111, 0b1011, 0b1111, 0b1110, 0b1101, 0b1100,
    0b0011, 0b0111, 0b1011, 0b1111, 0b1110, 0b1101, 0b1100,
    0b0011, 0b0111, 0b1011, 0b1111, 0b1110, 0b1101, 0b1100,
];

/// For each cell, how many of the three cells up and to the left exist (high
/// bits) and how many of the three down and to the right (low bits).
pub const AVAILABLE_DIAGONAL_TL: [u8; BOARD_CELLS] = [
    0b0011, 0b0011, 0b0011, 0b0011, 0b0010, 0b0001, 0b0000,
    0b0011, 0b0111, 0b0111, 0b0111, 0b0110, 0b0101, 0b0100,
    0b0011, 0b0111, 0b1011, 0b1011, 0b1010, 0b1001, 0b1000,
    0b0010, 0b0110, 0b1010, 0b1110, 0b1110, 0b1101, 0b1100,
    0b0001, 0b0101, 0b1001, 0b1101, 0b1101, 0b1101, 0b1100,
    0b0000, 0b0100, 0b1000, 0b1100, 0b1100, 0b1100, 0b1100,
];

/// For each cell, how many of the three cells down and to the left exist
/// (high bits) and how many of the three up and to the right (low bits).
pub const AVAILABLE_DIAGONAL_BL: [u8; BOARD_CELLS] = [
    0b0000, 0b0100, 0b1000, 0b1100, 0b1100, 0b1100, 0b1100,
    0b0001, 0b0101, 0b1001, 0b1101, 0b1101, 0b1101, 0b1100,
    0b0010, 0b0110, 0b1010, 0b1110, 0b1110, 0b1101, 0b1100,
    0b0011, 0b0111, 0b1011, 0b1011, 0b1010, 0b1001, 0b1000,
    0b0011, 0b0111, 0b0111, 0b0111, 0b0110, 0b0101, 0b0100,
    0b0011, 0b0011, 0b0011, 0b0011, 0b0010, 0b0001, 0b0000,
];

/// The cell in `row` and `column` is on the board and holds `player`.
pub open spec fn holds(cells: Seq<Player>, row: int, column: int, player: Player) -> bool {
    0 <= row < 6 && 0 <= column < 7 && cells[row * 7 + column] == player
}

/// Four cells, from (`row`, `column`) on and each `down` rows and `right`
/// columns after the one before it, are on the board and hold `player`.
pub open spec fn line_from(
    cells: Seq<Player>,
    row: int,
    column: int,
    down: int,
    right: int,
    player: Player,
) -> bool {
    &&& holds(cells, row, column, player)
    &&& holds(cells, row + down, column + right, player)
    &&& holds(cells, row + 2 * down, column + 2 * right, player)
    &&& holds(cells, row + 3 * down, column + 3 * right, player)
}

/// The piece in `cell` is one of four equal pieces in a line that runs in the
/// direction (`down`, `right`).
pub open spec fn line_through(cells: Seq<Player>, cell: int, down: int, right: int) -> bool {
    let row = cell / 7;
    let column = cell % 7;
    let player = cells[cell];
    ||| line_from(cells, row, column, down, right, player)
    ||| line_from(cells, row - down, column - right, down, right, player)
    ||| line_from(cells, row - 2 * down, column - 2 * right, down, right, player)
    ||| line_from(cells, row - 3 * down, column - 3 * right, down, right, player)
}

/// The piece in `cell` closes a line of four: with the three cells below it,
/// or with its neighbours along its row or along one of its two diagonals.
pub open spec fn wins_at(cells: Seq<Player>, cell: int) -> bool {
    ||| line_from(cells, cell / 7, cell % 7, 1, 0, cells[cell])
    ||| line_through(cells, cell, 0, 1)
    ||| line_through(cells, cell, 1, -1)
    ||| line_through(cells, cell, 1, 1)
}

/// A line of four pieces of `player` starts in `cell` and runs down, to the
/// right, or along a diagonal.
pub open spec fn starts_line(cells: Seq<Player>, cell: int, player: Player) -> bool {
    let row = cell / 7;
    let column = cell % 7;
    ||| line_from(cells, row, column, 1, 0, player)
    ||| line_from(cells, row, column, 0, 1, player)
    ||| line_from(cells, row, column, 1, -1, player)
    ||| line_from(cells, row, column, 1, 1, player)
}

/// Nobody has four in a line anywhere on the board.
pub open spec fn no_line(cells: Seq<Player>) -> bool {
    forall|cell: int, player: Player|
        0 <= cell < 42 && player != Player::Unset ==> !#[trigger] starts_line(cells, cell, player)
}

/// The four cells at the given distances from `cell` hold the same.
pub open spec fn same_four(cells: Seq<Player>, cell: int, a: int, b: int, c: int, d: int) -> bool {
    cells[cell + a] == cells[cell + b] && cells[cell + b] == cells[cell + c] && cells[cell + c]
        == cells[cell + d]
}

/// One of the first `count` runs of four neighbours in `offsets` names four
/// cells that hold the same.
pub open spec fn any_window(cells: Seq<Player>, cell: int, offsets: Seq<isize>, count: int) -> bool
    decreases count,
{
    if count <= 0 {
        false
    } else {
        any_window(cells, cell, offsets, count - 1) || same_four(
            cells,
            cell,
            offsets[count - 1] as int,
            offsets[count] as int,
            offsets[count + 1] as int,
            offsets[count + 2] as int,
        )
    }
}

/// What a mask selects: with `mask / 4` cells before `cell` and `mask % 4`
/// after it, at the distances given, some four neighbours that include
/// `cell` hold the same.
pub open spec fn row_wins(
    cells: Seq<Player>,
    mask: u8,
    cell: int,
    l1: int,
    l2: int,
    l3: int,
    r1: int,
    r2: int,
    r3: int,
) -> bool {
    let before = mask / 4;
    let after = mask % 4;
    mask < 16 && {
        ||| before >= 3 && same_four(cells, cell, l3, l2, l1, 0)
        ||| before >= 2 && after >= 1 && same_four(cells, cell, l2, l1, 0, r1)
        ||| before >= 1 && after >= 2 && same_four(cells, cell, l1, 0, r1, r2)
        ||| after >= 3 && same_four(cells, cell, 0, r1, r2, r3)
    }
}

/// `n` cut down to the range from 0 to 3.
pub open spec fn reach(n: int) -> int {
    if n < 0 {
        0
    } else if n > 3 {
        3
    } else {
        n
    }
}

/// The smaller of two numbers.
pub open spec fn least(a: int, b: int) -> int {
    if a < b {
        a
    } else {
        b
    }
}

/// The mask for a cell with `before` cells before it on a line and `after`
/// cells after it: of each, as many as there are up to three, the first
/// number in the two high bits and the second in the two low bits.
pub open spec fn mask_of(before: int, after: int) -> int {
    4 * reach(before) + reach(after)
}

/// The tables hold what their names say: for each cell, the number of
/// neighbours that the board has on either side of it along each line.
#[verifier::rlimit(50)]
pub proof fn lemma_masks_count_neighbours(cell: int)
    requires
        0 <= cell < 42,
    ensures
        AVAILABLE_BOTTOM[cell] == mask_of(0, 5 - cell / 7),
        AVAILABLE_HORIZONTAL[cell] == mask_of(cell % 7, 6 - cell % 7),
        AVAILABLE_DIAGONAL_TL[cell] == mask_of(
            least(cell / 7, cell % 7),
            least(5 - cell / 7, 6 - cell % 7),
        ),
        AVAILABLE_DIAGONAL_BL[cell] == mask_of(
            least(5 - cell / 7, cell % 7),
            least(cell / 7, 6 - cell % 7),
        ),
{
}

/// Every distance in `offsets` leads from `cell` to a cell of the board.
pub open spec fn offsets_fit(cell: int, offsets: Seq<isize>) -> bool {
    forall|i: int| 0 <= i < offsets.len() ==> 0 <= cell + #[trigger] offsets[i] < 42
}

/// Whether some four neighbours in `offsets` lead from `cell` to four cells
/// that hold the same.
pub fn check_offsets(cells: &[Player; 42], cell: usize, offsets: &[isize]) -> (r: bool)
    requires
        cell < 42,
        cells@[cell as int] != Player::Unset,
        offsets_fit(cell as int, offsets@),
    ensures
        r == any_window(cells@, cell as int, offsets@, offsets@.len() - 3),
{
    let count = offsets.len();
    let mut i: usize = 0;
    while i + 3 < count
        invariant
            cell < 42,
            count == offsets@.len(),
            offsets_fit(cell as int, offsets@),
            i <= offsets@.len(),
            offsets@.len() >= 3 ==> i <= offsets@.len() - 3,
            !any_window(cells@, cell as int, offsets@, i as int),
        decreases offsets@.len() - i,
    {
        let a = cells[(cell as isize + offsets[i]) as usize];
        let b = cells[(cell as isize + offsets[i + 1]) as usize];
        let c = cells[(cell as isize + offsets[i + 2]) as usize];
        let d = cells[(cell as isize + offsets[i + 3]) as usize];
        if many_eq(a, b, c, d) {
            proof {
                lemma_any_window_grows(cells@, cell as int, offsets@, i as int + 1, offsets@.len() - 3);
            }
            return true;
        }
        i += 1;
    }
    proof {
        if offsets@.len() < 3 {
            assert(!any_window(cells@, cell as int, offsets@, offsets@.len() - 3));
        }
    }
    false
}

/// A run found among the first `count` is found among the first `more`.
pub proof fn lemma_any_window_grows(
    cells: Seq<Player>,
    cell: int,
    offsets: Seq<isize>,
    count: int,
    more: int,
)
    requires
        count <= more,
        any_window(cells, cell, offsets, count),
    ensures
        any_window(cells, cell, offsets, more),
    decreases more - count,
{
    if count < more {
        lemma_any_window_grows(cells, cell, offsets, count, more - 1);
    }
}

/// The smallest and the largest of some numbers.
#[derive(Debug, PartialEq, Eq, Clone, Copy, Structural)]
enum Extremes {
    /// There was no number.
    NoElements,
    /// There was one number.
    OneElement(isize),
    /// There were two or more: the smallest, then the largest.
    MinMax(isize, isize),
}

/// Calls `Itertools::minmax` on the distances. The contract claims what its
/// documentation says: no element for an empty input, the element itself for
/// an input of one, and otherwise two of the input's elements between which
/// all the others lie.
#[verifier::external_body]
fn minmax(offsets: &[isize]) -> (r: Extremes)
    ensures
        match r {
            Extremes::NoElements => offsets@.len() == 0,
            Extremes::OneElement(a) => offsets@.len() == 1 && offsets@[0] == a,
            Extremes::MinMax(a, b) => {
                &&& offsets@.len() >= 2
                &&& offsets@.contains(a)
                &&& offsets@.contains(b)
                &&& forall|i: int| 0 <= i < offsets@.len() ==> a <= #[trigger] offsets@[i] <= b
            },
        },
{
    match offsets.iter().minmax() {
        MinMaxResult::NoElements => Extremes::NoElements,
        MinMaxResult::OneElement(a) => Extremes::OneElement(*a),
        MinMaxResult::MinMax(a, b) => Extremes::MinMax(*a, *b),
    }
}

/// Whether every distance in `offsets` leads from `cell` to a cell of the
/// board.
pub fn offsets_in_range(cell: usize, offsets: &[isize]) -> (r: bool)
    requires
        cell < 42,
    ensures
        r == offsets_fit(cell as int, offsets@),
{
    let (low, high) = match minmax(offsets) {
        Extremes::NoElements => {
            return true;
        },
        Extremes::OneElement(a) => (a, a),
        Extremes::MinMax(a, b) => (a, b),
    };
    let r = low >= -(cell as isize) && high < 42 - cell as isize;
    proof {
        assert(offsets@.contains(low));
        assert(offsets@.contains(high));
    }
    r
}

/// [`check_offsets`] for a caller that has not checked its input: `None`
/// where `cell` is off the board or empty, or where a distance leads off the
/// board.
pub fn try_check_offsets(cells: &[Player; 42], cell: usize, offsets: &[isize]) -> (r: Option<bool>)
    ensures
        r is Some <==> cell < 42 && cells@[cell as int] != Player::Unset && offsets_fit(
            cell as int,
            offsets@,
        ),
        r is Some ==> r == Some(
            any_window(cells@, cell as int, offsets@, offsets@.len() - 3),
        ),
{
    if cell >= 42 || cells[cell] == Player::Unset || !offsets_in_range(cell, offsets) {
        None
    } else {
        Some(check_offsets(cells, cell, offsets))
    }
}

/// Win detection finds every line along a row or a diagonal: where four
/// cells in such a line hold the same piece, each of the four closes a line.
pub proof fn lemma_line_is_found(
    cells: Seq<Player>,
    row: int,
    column: int,
    down: int,
    right: int,
    player: Player,
)
    requires
        cells.len() == 42,
        player != Player::Unset,
        (down == 0 && right == 1) || (down == 1 && right == 1) || (down == 1 && right == -1),
        line_from(cells, row, column, down, right, player),
    ensures
        wins_at(cells, row * 7 + column),
        wins_at(cells, (row + down) * 7 + column + right),
        wins_at(cells, (row + 2 * down) * 7 + column + 2 * right),
        wins_at(cells, (row + 3 * down) * 7 + column + 3 * right),
{
    lemma_line_covers(cells, row, column, down, right, player, 0);
    lemma_line_covers(cells, row, column, down, right, player, 1);
    lemma_line_covers(cells, row, column, down, right, player, 2);
    lemma_line_covers(cells, row, column, down, right, player, 3);
}

/// The `k`-th cell of a line along a row or a diagonal lies on a line of four
/// in that direction.
#[verifier::rlimit(50)]
proof fn lemma_line_covers(
    cells: Seq<Player>,
    row: int,
    column: int,
    down: int,
    right: int,
    player: Player,
    k: int,
)
    requires
        cells.len() == 42,
        player != Player::Unset,
        (down == 0 && right == 1) || (down == 1 && right == 1) || (down == 1 && right == -1),
        line_from(cells, row, column, down, right, player),
        0 <= k < 4,
    ensures
        line_through(cells, (row + k * down) * 7 + column + k * right, down, right),
{
    let r = if k == 0 {
        row
    } else if k == 1 {
        row + down
    } else if k == 2 {
        row + 2 * down
    } else {
        row + 3 * down
    };
    let c = if k == 0 {
        column
    } else if k == 1 {
        column + right
    } else if k == 2 {
        column + 2 * right
    } else {
        column + 3 * right
    };
    assert(holds(cells, r, c, player));
    let cell = r * 7 + c;
    assert(cell == (row + k * down) * 7 + column + k * right) by (nonlinear_arith)
        requires
            cell == r * 7 + c,
            0 <= k < 4,
            k == 0 ==> r == row && c == column,
            k == 1 ==> r == row + down && c == column + right,
            k == 2 ==> r == row + 2 * down && c == column + 2 * right,
            k == 3 ==> r == row + 3 * down && c == column + 3 * right,
    ;
    assert(cell / 7 == r && cell % 7 == c);
    assert(cells[cell] == player);
    if k == 0 {
        assert(line_from(cells, r, c, down, right, player));
    } else if k == 1 {
        assert(line_from(cells, r - down, c - right, down, right, player));
    } else if k == 2 {
        assert(line_from(cells, r - 2 * down, c - 2 * right, down, right, player));
    } else {
        assert(line_from(cells, r - 3 * down, c - 3 * right, down, right, player));
    }
}

/// Win detection finds a line down a column from its topmost cell.
pub proof fn lemma_column_is_found(cells: Seq<Player>, row: int, column: int, player: Player)
    requires
        cells.len() == 42,
        player != Player::Unset,
        line_from(cells, row, column, 1, 0, player),
    ensures
        wins_at(cells, row * 7 + column),
{
}

/// Win detection finds nothing but lines: where the piece in `cell` closes a
/// line, four equal pieces stand in a line on the board.
pub proof fn lemma_found_is_line(cells: Seq<Player>, cell: int)
    requires
        cells.len() == 42,
        0 <= cell < 42,
        cells[cell] != Player::Unset,
        wins_at(cells, cell),
    ensures
        !no_line(cells),
{
    let row = cell / 7;
    let column = cell % 7;
    let player = cells[cell];
    if line_from(cells, row, column, 1, 0, player) {
        assert(starts_line(cells, cell, player));
    } else if line_through(cells, cell, 0, 1) {
        lemma_start_of(cells, cell, 0, 1);
    } else if line_through(cells, cell, 1, -1) {
        lemma_start_of(cells, cell, 1, -1);
    } else {
        lemma_start_of(cells, cell, 1, 1);
    }
}

/// Where a line in the given direction covers `cell`, a line starts in one

/// of the four cells that it may start in.
proof fn lemma_start_of(cells: Seq<Player>, cell: int, down: int, right: int)
    requires
        cells.len() == 42,
        0 <= cell < 42,
        cells[cell] != Player::Unset,
        (down == 0 && right == 1) || (down == 1 && right == 1) || (down == 1 && right == -1),
        line_through(cells, cell, down, right),
    ensures
        !no_line(cells),
{
    let row = cell / 7;
    let column = cell % 7;
    let player = cells[cell];
    if line_from(cells, row, column, down, right, player) {
        assert(starts_line(cells, row * 7 + column, player));
    } else if line_from(cells, row - down, column - right, down, right, player) {
        assert(starts_line(cells, (row - down) * 7 + column - right, player));
    } else if line_from(cells, row - 2 * down, column - 2 * right, down, right, player) {
        assert(starts_line(cells, (row - 2 * down) * 7 + column - 2 * right, player));
    } else {
        assert(starts_line(cells, (row - 3 * down) * 7 + column - 3 * right, player));
    }
}

/// A move that closes no line leaves the board without a line: where nobody
/// had four in a line before the piece on top of its column was dropped, and
/// that piece closes none, nobody has four in a line.
#[verifier::rlimit(50)]
pub proof fn lemma_quiet_after_move(pos: Position, last: int)
    requires
        pos.wf(),
        pos.on_top(last),
        no_line(pos.cells.update(last, Player::Unset)),
        !wins_at(pos.cells, last),
    ensures
        no_line(pos.cells),
{
    let before = pos.cells.update(last, Player::Unset);
    let row = last / 7;
    let column = last % 7;
    assert forall|cell: int, player: Player|
        0 <= cell < 42 && player != Player::Unset implies !#[trigger] starts_line(
        pos.cells,
        cell,
        player,
    ) by {
        assert(!starts_line(before, cell, player));
        if starts_line(pos.cells, cell, player) {
            let r = cell / 7;
            let c = cell % 7;
            if line_from(pos.cells, r, c, 1, 0, player) {
                lemma_line_meets(pos, last, r, c, 1, 0, player);
            } else if line_from(pos.cells, r, c, 0, 1, player) {
                lemma_line_meets(pos, last, r, c, 0, 1, player);
            } else if line_from(pos.cells, r, c, 1, -1, player) {
                lemma_line_meets(pos, last, r, c, 1, -1, player);
            } else {
                lemma_line_meets(pos, last, r, c, 1, 1, player);
            }
        }
    }
}

/// A line on the board after a move that closed none does not cover the
/// piece just dropped, so it stood there before the move.
#[verifier::rlimit(50)]
proof fn lemma_line_meets(
    pos: Position,
    last: int,
    row: int,
    column: int,
    down: int,
    right: int,
    player: Player,
)
    requires
        pos.wf(),
        pos.on_top(last),
        player != Player::Unset,
        (down == 1 && right == 0) || (down == 0 && right == 1) || (down == 1 && right == 1) || (
        down == 1 && right == -1),
        line_from(pos.cells, row, column, down, right, player),
        !wins_at(pos.cells, last),
    ensures
        line_from(pos.cells.update(last, Player::Unset), row, column, down, right, player),
{
    let before = pos.cells.update(last, Player::Unset);
    let r = last / 7;
    let c = last % 7;
    if down == 1 && right == 0 && column == c && row < r && r <= row + 3 {
        assert(pos.cells[cell_of(row, column)] == Player::Unset);
    }
}

impl ConnectFour {
    /// Looks, among the neighbours of `cell` that `mask` says exist, for four
    /// in a line that include `cell` and hold the same. `l1`, `l2`, `l3` are
    /// the distances to the cells before it, `r1`, `r2`, `r3` to those after.
    pub fn status_row(
        &self,
        mask: u8,
        cell: usize,
        l1: isize,
        l2: isize,
        l3: isize,
        r1: isize,
        r2: isize,
        r3: isize,
    ) -> (r: bool)
        requires
            cell < 42,
            self.cells@[cell as int] != Player::Unset,
            mask < 16 && mask / 4 >= 1 ==> 0 <= cell + l1 < 42,
            mask < 16 && mask / 4 >= 2 ==> 0 <= cell + l2 < 42,
            mask < 16 && mask / 4 >= 3 ==> 0 <= cell + l3 < 42,
            mask < 16 && mask % 4 >= 1 ==> 0 <= cell + r1 < 42,
            mask < 16 && mask % 4 >= 2 ==> 0 <= cell + r2 < 42,
            mask < 16 && mask % 4 >= 3 ==> 0 <= cell + r3 < 42,
        ensures
            r == row_wins(
                self.cells@,
                mask,
                cell as int,
                l1 as int,
                l2 as int,
                l3 as int,
                r1 as int,
                r2 as int,
                r3 as int,
            ),
    {
        reveal_with_fuel(any_window, 5);
        match mask {
            0b0011 => check_offsets(&self.cells, cell, &[0, r1, r2, r3]),
            0b0111 => check_offsets(&self.cells, cell, &[l1, 0, r1, r2, r3]),
            0b1011 => check_offsets(&self.cells, cell, &[l2, l1, 0, r1, r2, r3]),
            0b1100 => check_offsets(&self.cells, cell, &[l3, l2, l1, 0]),
            0b1101 => check_offsets(&self.cells, cell, &[l3, l2, l1, 0, r1]),
            0b1110 => check_offsets(&self.cells, cell, &[l3, l2, l1, 0, r1, r2]),
            0b1111 => check_offsets(&self.cells, cell, &[l3, l2, l1, 0, r1, r2, r3]),
            0b0110 => check_offsets(&self.cells, cell, &[l1, 0, r1, r2]),
            0b1001 => check_offsets(&self.cells, cell, &[l2, l1, 0, r1]),
            0b1010 => check_offsets(&self.cells, cell, &[l2, l1, 0, r1, r2]),
            _ => false,
        }
    }

    /// Whether the piece in `cell` and the three cells below it hold the same.
    #[verifier::rlimit(50)]
    pub fn status_vertical(&self, cell: usize) -> (r: bool)
        requires
            cell < 42,
            self.cells@[cell as int] != Player::Unset,
        ensures
            r == line_from(self.cells@, cell as int / 7, cell as int % 7, 1, 0, self.cells@[cell as int]),
    {
        reveal_with_fuel(any_window, 2);
        proof {
            lemma_masks_count_neighbours(cell as int);
        }
        AVAILABLE_BOTTOM[cell] == 3 && check_offsets(&self.cells, cell, &[0, 7, 14, 21])
    }

    /// Whether the piece in `cell` is one of four equal neighbours in its row.
    #[verifier::rlimit(50)]
    pub fn status_horizontal(&self, cell: usize) -> (r: bool)
        requires
            cell < 42,
            self.cells@[cell as int] != Player::Unset,
        ensures
            r == line_through(self.cells@, cell as int, 0, 1),
    {
        proof {
            lemma_masks_count_neighbours(cell as int);
        }
        self.status_row(AVAILABLE_HORIZONTAL[cell], cell, -1, -2, -3, 1, 2, 3)
    }

    /// Whether the piece in `cell` is one of four equal neighbours on the
    /// diagonal that falls to the right.
    #[verifier::rlimit(50)]
    pub fn status_diagonal_tl(&self, cell: usize) -> (r: bool)
        requires
            cell < 42,
            self.cells@[cell as int] != Player::Unset,
        ensures
            r == line_through(self.cells@, cell as int, 1, 1),
    {
        proof {
            lemma_masks_count_neighbours(cell as int);
        }
        self.status_row(AVAILABLE_DIAGONAL_TL[cell], cell, -8, -16, -24, 8, 16, 24)
    }

    /// Whether the piece in `cell` is one of four equal neighbours on the
    /// diagonal that rises to the right.
    #[verifier::rlimit(50)]
    pub fn status_diagonal_bl(&self, cell: usize) -> (r: bool)
        requires
            cell < 42,
            self.cells@[cell as int] != Player::Unset,
        ensures
            r == line_through(self.cells@, cell as int, 1, -1),
    {
        proof {
            lemma_masks_count_neighbours(cell as int);
        }
        self.status_row(AVAILABLE_DIAGONAL_BL[cell], cell, 6, 12, 18, -6, -12, -18)
    }

    /// Whether a line of four equal pieces starts in `cell` and runs down, to
    /// the right, or along a diagonal.
    #[verifier::rlimit(50)]
    fn line_starts(&self, cell: usize) -> (r: bool)
        requires
            cell < 42,
        ensures
            r == (starts_line(self.cells@, cell as int, Player::Human) || starts_line(
                self.cells@,
                cell as int,
                Player::Machine,
            )),
    {
        let player = self.cells[cell];
        if player == Player::Unset {
            return false;
        }
        let row = cell / 7;
        let column = cell % 7;
        let ghost cells = self.cells@;
        let ghost other = player.opponent();
        let down = row < 3 && self.cells[cell + 7] == player && self.cells[cell + 14] == player
            && self.cells[cell + 21] == player;
        assert(down == line_from(cells, row as int, column as int, 1, 0, player));
        let across = column < 4 && self.cells[cell + 1] == player && self.cells[cell + 2] == player
            && self.cells[cell + 3] == player;
        assert(across == line_from(cells, row as int, column as int, 0, 1, player));
        let rising = row < 3 && column >= 3 && self.cells[cell + 6] == player && self.cells[cell
            + 12] == player && self.cells[cell + 18] == player;
        assert(rising == line_from(cells, row as int, column as int, 1, -1, player));
        let falling = row < 3 && column < 4 && self.cells[cell + 8] == player && self.cells[cell
            + 16] == player && self.cells[cell + 24] == player;
        assert(falling == line_from(cells, row as int, column as int, 1, 1, player));
        assert(!starts_line(cells, cell as int, other));
        down || across || rising || falling
    }

    /// Whether somebody has four in a line anywhere on the board.
    pub fn decided(&self) -> (r: bool)
        ensures
            r == !no_line(self.cells@),
    {
        let mut cell: usize = 0;
        while cell < 42
            invariant
                cell <= 42,
                forall|c: int, player: Player|
                    0 <= c < cell && player != Player::Unset ==> !#[trigger] starts_line(
                        self.cells@,
                        c,
                        player,
                    ),
            decreases 42 - cell,
        {
            if self.line_starts(cell) {
                return true;
            }
            cell += 1;
        }
        false
    }

    /// Whether the piece in `last_cell_offset` closes a line of four.
    pub fn status(&self, last_cell_offset: usize) -> (r: bool)
        requires
            last_cell_offset < 42,
            self.cells@[last_cell_offset as int] != Player::Unset,
        ensures
            r == wins_at(self.cells@, last_cell_offset as int),
    {
        self.status_vertical(last_cell_offset) || self.status_horizontal(last_cell_offset)
            || self.status_diagonal_bl(last_cell_offset) || self.status_diagonal_tl(
            last_cell_offset,
        )
    }
}

} // verus!
