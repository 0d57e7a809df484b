//! The static score of a four-in-a-row position for one side: a bonus for
//! pieces in the middle column, and a value for every run of four cells along
//! a row, a column or a diagonal.

use crate::games::connect_four::ConnectFour;
use crate::games::lines::{line_from, no_line, starts_line};
use crate::player::Player;
use vstd::prelude::*;

verus! {

/// The cells of the middle column, from the top.
pub const CENTER_CELLS: [usize; 6] = [3, 10, 17, 24, 31, 38];

/// The distances from the first cell of a row to each of its cells.
pub const ROW_OFFSETS: [usize; 7] = [0, 1, 2, 3, 4, 5, 6];

/// The distances from the first cell of a column to each of its cells.
pub const COLUMN_OFFSETS: [usize; 6] = [0, 7, 14, 21, 28, 35];

/// The distances from the first cell of a diagonal that falls to the right
/// to each of its cells.
pub const FALLING_OFFSETS: [usize; 6] = [0, 8, 16, 24, 32, 40];

/// The distances from the first cell of a diagonal that falls to the left to
/// each of its cells.
pub const RISING_OFFSETS: [usize; 6] = [0, 6, 12, 18, 24, 30];

/// 1 where the cell holds `target`, else 0.
pub open spec fn one_if(cells: Seq<Player>, target: Player, cell: int) -> int {
    if cells[cell] == target {
        1
    } else {
        0
    }
}

/// How many of four cells hold `target`.
pub open spec fn pieces(cells: Seq<Player>, target: Player, a: int, b: int, c: int, d: int) -> int {
    one_if(cells, target, a) + one_if(cells, target, b) + one_if(cells, target, c) + one_if(
        cells,
        target,
        d,
    )
}

/// How many of the four low bits of `mask` are set.
pub open spec fn bits(mask: u8) -> int {
    mask % 2 + (mask / 2) % 2 + (mask / 4) % 2 + (mask / 8) % 2
}

/// The value of a run of four cells with `own` pieces of the side that is
/// scored and `empty` empty cells: 100 for three pieces and a gap, 10 for two
/// pieces and two gaps, the same with a minus where the pieces are the other
/// side's, and 0 for any other run.
pub open spec fn window_score(own: int, empty: int) -> int {
    if own == 3 && empty == 1 {
        100
    } else if own == 2 && empty == 2 {
        10
    } else if own == 0 && empty == 1 {
        -100
    } else if own == 0 && empty == 2 {
        -10
    } else {
        0
    }
}

/// The value for `player` of the run of four cells `a`, `b`, `c`, `d`.
pub open spec fn window_value(
    cells: Seq<Player>,
    player: Player,
    a: int,
    b: int,
    c: int,
    d: int,
) -> int {
    window_score(pieces(cells, player, a, b, c, d), pieces(cells, Player::Unset, a, b, c, d))
}

/// The run is neither four pieces of `player` nor four of the other side.
pub open spec fn undecided(cells: Seq<Player>, player: Player, a: int, b: int, c: int, d: int) -> bool {
    pieces(cells, player, a, b, c, d) != 4 && pieces(cells, player, a, b, c, d) + pieces(
        cells,
        Player::Unset,
        a,
        b,
        c,
        d,
    ) != 0
}

/// The sum of the values of the first `count` runs of four neighbours in
/// `offsets`, each taken as a distance from `index`.
pub open spec fn windows_sum(
    cells: Seq<Player>,
    player: Player,
    index: int,
    offsets: Seq<usize>,
    count: int,
) -> int
    decreases count,
{
    if count <= 0 {
        0
    } else {
        windows_sum(cells, player, index, offsets, count - 1) + window_value(
            cells,
            player,
            index + offsets[count - 1],
            index + offsets[count],
            index + offsets[count + 1],
            index + offsets[count + 2],
        )
    }
}

/// Three points for each piece of `player` in the middle column.
pub open spec fn center_score(cells: Seq<Player>, player: Player) -> int {
    3 * (one_if(cells, player, 3) + one_if(cells, player, 10) + one_if(cells, player, 17) + one_if(
        cells,
        player,
        24,
    ) + one_if(cells, player, 31) + one_if(cells, player, 38))
}

/// The runs along the first `rows` rows.
pub open spec fn rows_score(cells: Seq<Player>, player: Player, rows: int) -> int
    decreases rows,
{
    if rows <= 0 {
        0
    } else {
        rows_score(cells, player, rows - 1) + windows_sum(
            cells,
            player,
            7 * (rows - 1),
            ROW_OFFSETS@,
            4,
        )
    }
}

/// The runs down the first `columns` columns.
pub open spec fn columns_score(cells: Seq<Player>, player: Player, columns: int) -> int
    decreases columns,
{
    if columns <= 0 {
        0
    } else {
        columns_score(cells, player, columns - 1) + windows_sum(
            cells,
            player,
            columns - 1,
            COLUMN_OFFSETS@,
            3,
        )
    }
}

/// The runs along the six diagonals of four cells or more that fall to the
/// right.
pub open spec fn falling_score(cells: Seq<Player>, player: Player) -> int {
    windows_sum(cells, player, 0, FALLING_OFFSETS@, 3) + windows_sum(
        cells,
        player,
        1,
        FALLING_OFFSETS@,
        3,
    ) + windows_sum(cells, player, 2, FALLING_OFFSETS@, 2) + windows_sum(
        cells,
        player,
        7,
        FALLING_OFFSETS@,
        2,
    ) + windows_sum(cells, player, 3, FALLING_OFFSETS@, 1) + windows_sum(
        cells,
        player,
        14,
        FALLING_OFFSETS@,
        1,
    )
}

/// The runs along the six diagonals of four cells or more that fall to the
/// left.
pub open spec fn rising_score(cells: Seq<Player>, player: Player) -> int {
    windows_sum(cells, player, 5, RISING_OFFSETS@, 3) + windows_sum(
        cells,
        player,
        6,
        RISING_OFFSETS@,
        3,
    ) + windows_sum(cells, player, 4, RISING_OFFSETS@, 2) + windows_sum(
        cells,
        player,
        13,
        RISING_OFFSETS@,
        2,
    ) + windows_sum(cells, player, 3, RISING_OFFSETS@, 1) + windows_sum(
        cells,
        player,
        20,
        RISING_OFFSETS@,
        1,
    )
}

/// The runs of four along every row, column and diagonal.
pub open spec fn lines_score(cells: Seq<Player>, player: Player) -> int {
    rows_score(cells, player, 6) + columns_score(cells, player, 7) + falling_score(cells, player)
        + rising_score(cells, player)
}

/// The static score of the board for `player`.
pub open spec fn score(cells: Seq<Player>, player: Player) -> int {
    center_score(cells, player) + lines_score(cells, player)
}

/// A sum of `count` runs lies within 100 times `count` of zero.
pub proof fn lemma_windows_sum_bound(
    cells: Seq<Player>,
    player: Player,
    index: int,
    offsets: Seq<usize>,
    count: int,
)
    requires
        count >= 0,
    ensures
        -100 * count <= windows_sum(cells, player, index, offsets, count) <= 100 * count,
    decreases count,
{
    if count > 0 {
        lemma_windows_sum_bound(cells, player, index, offsets, count - 1);
    }
}

/// The runs along `rows` rows lie within 400 times `rows` of zero.
proof fn lemma_rows_score_bound(cells: Seq<Player>, player: Player, rows: int)
    requires
        rows >= 0,
    ensures
        -400 * rows <= rows_score(cells, player, rows) <= 400 * rows,
    decreases rows,
{
    if rows > 0 {
        lemma_rows_score_bound(cells, player, rows - 1);
        lemma_windows_sum_bound(cells, player, 7 * (rows - 1), ROW_OFFSETS@, 4);
    }
}

/// The runs down `columns` columns lie within 300 times `columns` of zero.
proof fn lemma_columns_score_bound(cells: Seq<Player>, player: Player, columns: int)
    requires
        columns >= 0,
    ensures
        -300 * columns <= columns_score(cells, player, columns) <= 300 * columns,
    decreases columns,
{
    if columns > 0 {
        lemma_columns_score_bound(cells, player, columns - 1);
        lemma_windows_sum_bound(cells, player, columns - 1, COLUMN_OFFSETS@, 3);
    }
}

/// No static score comes near the score of a won game: it lies within 6918
/// of zero.
pub proof fn lemma_score_bound(cells: Seq<Player>, player: Player)
    ensures
        -6918 <= score(cells, player) <= 6918,
{
    lemma_rows_score_bound(cells, player, 6);
    lemma_columns_score_bound(cells, player, 7);
    lemma_windows_sum_bound(cells, player, 0, FALLING_OFFSETS@, 3);
    lemma_windows_sum_bound(cells, player, 1, FALLING_OFFSETS@, 3);
    lemma_windows_sum_bound(cells, player, 2, FALLING_OFFSETS@, 2);
    lemma_windows_sum_bound(cells, player, 7, FALLING_OFFSETS@, 2);
    lemma_windows_sum_bound(cells, player, 3, FALLING_OFFSETS@, 1);
    lemma_windows_sum_bound(cells, player, 14, FALLING_OFFSETS@, 1);
    lemma_windows_sum_bound(cells, player, 5, RISING_OFFSETS@, 3);
    lemma_windows_sum_bound(cells, player, 6, RISING_OFFSETS@, 3);
    lemma_windows_sum_bound(cells, player, 4, RISING_OFFSETS@, 2);
    lemma_windows_sum_bound(cells, player, 13, RISING_OFFSETS@, 2);
    lemma_windows_sum_bound(cells, player, 3, RISING_OFFSETS@, 1);
    lemma_windows_sum_bound(cells, player, 20, RISING_OFFSETS@, 1);
}

/// The middle column holds no piece.
pub open spec fn center_empty(cells: Seq<Player>) -> bool {
    cells[3] == Player::Unset && cells[10] == Player::Unset && cells[17] == Player::Unset
        && cells[24] == Player::Unset && cells[31] == Player::Unset && cells[38] == Player::Unset
}

/// A sum of runs is worth to the machine what it costs the human.
proof fn lemma_windows_zero_sum(cells: Seq<Player>, index: int, offsets: Seq<usize>, count: int)
    ensures
        windows_sum(cells, Player::Machine, index, offsets, count) == -windows_sum(
            cells,
            Player::Human,
            index,
            offsets,
            count,
        ),
    decreases count,
{
    if count > 0 {
        lemma_windows_zero_sum(cells, index, offsets, count - 1);
    }
}

/// The runs along the rows are worth to the machine what they cost the

/// human.
proof fn lemma_rows_zero_sum(cells: Seq<Player>, rows: int)
    ensures
        rows_score(cells, Player::Machine, rows) == -rows_score(cells, Player::Human, rows),
    decreases rows,
{
    if rows > 0 {
        lemma_rows_zero_sum(cells, rows - 1);
        lemma_windows_zero_sum(cells, 7 * (rows - 1), ROW_OFFSETS@, 4);
    }
}

/// The runs down the columns are worth to the machine what they cost the

/// human.
proof fn lemma_columns_zero_sum(cells: Seq<Player>, columns: int)
    ensures
        columns_score(cells, Player::Machine, columns) == -columns_score(
            cells,
            Player::Human,
            columns,
        ),
    decreases columns,
{
    if columns > 0 {
        lemma_columns_zero_sum(cells, columns - 1);
        lemma_windows_zero_sum(cells, columns - 1, COLUMN_OFFSETS@, 3);
    }
}

/// What the runs of four are worth to the machine they cost the human: the
/// two sides' scores add up to their bonuses for the middle column.
pub proof fn lemma_lines_zero_sum(cells: Seq<Player>)
    ensures
        lines_score(cells, Player::Machine) == -lines_score(cells, Player::Human),
        score(cells, Player::Machine) + score(cells, Player::Human) == center_score(
            cells,
            Player::Machine,
        ) + center_score(cells, Player::Human),
{
    lemma_rows_zero_sum(cells, 6);
    lemma_columns_zero_sum(cells, 7);
    lemma_windows_zero_sum(cells, 0, FALLING_OFFSETS@, 3);
    lemma_windows_zero_sum(cells, 1, FALLING_OFFSETS@, 3);
    lemma_windows_zero_sum(cells, 2, FALLING_OFFSETS@, 2);
    lemma_windows_zero_sum(cells, 7, FALLING_OFFSETS@, 2);
    lemma_windows_zero_sum(cells, 3, FALLING_OFFSETS@, 1);
    lemma_windows_zero_sum(cells, 14, FALLING_OFFSETS@, 1);
    lemma_windows_zero_sum(cells, 5, RISING_OFFSETS@, 3);
    lemma_windows_zero_sum(cells, 6, RISING_OFFSETS@, 3);
    lemma_windows_zero_sum(cells, 4, RISING_OFFSETS@, 2);
    lemma_windows_zero_sum(cells, 13, RISING_OFFSETS@, 2);
    lemma_windows_zero_sum(cells, 3, RISING_OFFSETS@, 1);
    lemma_windows_zero_sum(cells, 20, RISING_OFFSETS@, 1);
}

/// The static score is zero-sum while the middle column is empty: the
/// machine's score is the human's with the sign turned.
pub proof fn lemma_zero_sum(cells: Seq<Player>)
    requires
        center_empty(cells),
    ensures
        score(cells, Player::Machine) == -score(cells, Player::Human),
{
    lemma_lines_zero_sum(cells);
}

/// On a board without a line of four, no run of four cells that lies on the
/// board is decided.
#[verifier::rlimit(50)]
pub proof fn lemma_window_undecided(
    cells: Seq<Player>,
    player: Player,
    start: int,
    down: int,
    right: int,
)
    requires
        cells.len() == 42,
        no_line(cells),
        player != Player::Unset,
        0 <= start < 42,
        (down == 1 && right == 0) || (down == 0 && right == 1) || (down == 1 && right == 1) || (
        down == 1 && right == -1),
        start / 7 + 3 * down < 6,
        0 <= start % 7 + 3 * right < 7,
    ensures
        undecided(
            cells,
            player,
            start,
            start + (7 * down + right),
            start + 2 * (7 * down + right),
            start + 3 * (7 * down + right),
        ),
{
    let row = start / 7;
    let column = start % 7;
    let other = player.opponent();
    assert(!starts_line(cells, start, player));
    assert(!starts_line(cells, start, other));
    assert(!line_from(cells, row, column, down, right, player));
    assert(!line_from(cells, row, column, down, right, other));
}

/// How many of the four low bits of `mask` are set.
pub fn bitmask_to_count(mask: u8) -> (r: u8)
    requires
        mask < 16,
    ensures
        r == bits(mask),
{
    match mask {
        0b0000 => 0,
        0b0001 | 0b0010 | 0b0100 | 0b1000 => 1,
        0b0011 | 0b0101 | 0b0110 | 0b1001 | 0b1010 | 0b1100 => 2,
        0b0111 | 0b1011 | 0b1101 | 0b1110 => 3,
        _ => 4,
    }
}

impl ConnectFour {
    /// The mask of the four cells `i`: bit `k` is set where cell `i[k]` holds
    /// `target`.
    fn window_mask(&self, target: Player, i: &[usize; 4]) -> (mask: u8)
        requires
            i@[0] < 42,
            i@[1] < 42,
            i@[2] < 42,
            i@[3] < 42,
        ensures
            mask < 16,
            bits(mask) == pieces(
                self.cells@,
                target,
                i@[0] as int,
                i@[1] as int,
                i@[2] as int,
                i@[3] as int,
            ),
    {
        let mut mask: u8 = 0;
        if self.cells[i[0]] == target {
            mask += 1;
        }
        if self.cells[i[1]] == target {
            mask += 2;
        }
        if self.cells[i[2]] == target {
            mask += 4;
        }
        if self.cells[i[3]] == target {
            mask += 8;
        }
        mask
    }

    /// The value for `player` of the run of four cells `i`.
    pub fn evaluate_window(&self, player: Player, i: &[usize; 4]) -> (r: i32)
        requires
            player != Player::Unset,
            i@[0] < 42,
            i@[1] < 42,
            i@[2] < 42,
            i@[3] < 42,
            undecided(self.cells@, player, i@[0] as int, i@[1] as int, i@[2] as int, i@[3] as int),
        ensures
            r == window_value(
                self.cells@,
                player,
                i@[0] as int,
                i@[1] as int,
                i@[2] as int,
                i@[3] as int,
            ),
    {
        let empty_pieces = bitmask_to_count(self.window_mask(Player::Unset, i));
        let player_pieces = bitmask_to_count(self.window_mask(player, i));
        let mask: u8 = player_pieces * 8 + empty_pieces;
        match mask {
            0o31 => 100,
            0o22 => 10,
            0o01 => -100,
            0o02 => -10,
            _ => 0,
        }
    }

    /// The sum of the values for `player` of every run of four neighbours
    /// among the first `amount` of `offsets`, each taken as a distance from
    /// `index`.
    pub fn sum_windows(&self, player: Player, index: usize, offsets: &[usize], amount: usize) -> (r:
        i32)
        requires
            player != Player::Unset,
            amount <= offsets@.len(),
            100 * amount <= i32::MAX,
            forall|x: int| 0 <= x < amount ==> index + #[trigger] offsets@[x] < 42,
            forall|x: int|
                0 <= x && x + 3 < amount ==> undecided(
                    self.cells@,
                    player,
                    index + #[trigger] offsets@[x],
                    index + offsets@[x + 1],
                    index + offsets@[x + 2],
                    index + offsets@[x + 3],
                ),
        ensures
            r == windows_sum(self.cells@, player, index as int, offsets@, amount - 3),
    {
        let mut score: i32 = 0;
        let mut x: usize = 0;
        while x + 3 < amount
            invariant
                player != Player::Unset,
                amount <= offsets@.len(),
                100 * amount <= i32::MAX,
                x <= amount,
                amount >= 3 ==> x <= amount - 3,
                amount < 3 ==> x == 0,
                forall|x: int| 0 <= x < amount ==> index + #[trigger] offsets@[x] < 42,
                forall|x: int|
                    0 <= x && x + 3 < amount ==> undecided(
                        self.cells@,
                        player,
                        index + #[trigger] offsets@[x],
                        index + offsets@[x + 1],
                        index + offsets@[x + 2],
                        index + offsets@[x + 3],
                    ),
                score == windows_sum(self.cells@, player, index as int, offsets@, x as int),
            decreases amount - x,
        {
            proof {
                lemma_windows_sum_bound(self.cells@, player, index as int, offsets@, x as int);
            }
            let window = [
                index + offsets[x],
                index + offsets[x + 1],
                index + offsets[x + 2],
                index + offsets[x + 3],
            ];
            score += self.evaluate_window(player, &window);
            x += 1;
        }
        proof {
            if amount < 3 {
                assert(windows_sum(self.cells@, player, index as int, offsets@, amount - 3) == 0);
                assert(windows_sum(self.cells@, player, index as int, offsets@, x as int) == 0);
            }
        }
        score
    }

    /// Three points for each piece of `player` in the middle column.
    pub fn score_position_center_column(&self, player: Player) -> (r: i32)
        ensures
            r == center_score(self.cells@, player),
    {
        let mut score: i32 = 0;
        let mut k: usize = 0;
        while k < 6
            invariant
                k <= 6,
                0 <= score <= 3 * k,
                score == 3 * ((if k > 0 { one_if(self.cells@, player, 3) } else { 0 }) + (if k > 1 {
                    one_if(self.cells@, player, 10)
                } else {
                    0
                }) + (if k > 2 { one_if(self.cells@, player, 17) } else { 0 }) + (if k > 3 {
                    one_if(self.cells@, player, 24)
                } else {
                    0
                }) + (if k > 4 { one_if(self.cells@, player, 31) } else { 0 }) + (if k > 5 {
                    one_if(self.cells@, player, 38)
                } else {
                    0
                })),
            decreases 6 - k,
        {
            let index = CENTER_CELLS[k];
            if self.cells[index] == player {
                score += 3;
            }
            k += 1;
        }
        score
    }

    /// The runs of four along every row.
    pub fn score_position_horizontal(&self, player: Player) -> (r: i32)
        requires
            player != Player::Unset,
            no_line(self.cells@),
        ensures
            r == rows_score(self.cells@, player, 6),
    {
        let mut score: i32 = 0;
        let mut row: usize = 0;
        while row < 6
            invariant
                row <= 6,
                player != Player::Unset,
                no_line(self.cells@),
                score == rows_score(self.cells@, player, row as int),
            decreases 6 - row,
        {
            proof {
                lemma_rows_score_bound(self.cells@, player, row as int);
                lemma_windows_sum_bound(self.cells@, player, 7 * row, ROW_OFFSETS@, 4);
                assert forall|x: int| 0 <= x && x + 3 < 7 implies undecided(
                    self.cells@,
                    player,
                    7 * row + #[trigger] ROW_OFFSETS@[x],
                    7 * row + ROW_OFFSETS@[x + 1],
                    7 * row + ROW_OFFSETS@[x + 2],
                    7 * row + ROW_OFFSETS@[x + 3],
                ) by {
                    lemma_window_undecided(self.cells@, player, 7 * row + x, 0, 1);
                }
            }
            score += self.sum_windows(player, 7 * row, &ROW_OFFSETS, 7);
            row += 1;
        }
        score
    }

    /// The runs of four down every column.
    pub fn score_position_vertical(&self, player: Player) -> (r: i32)
        requires
            player != Player::Unset,
            no_line(self.cells@),
        ensures
            r == columns_score(self.cells@, player, 7),
    {
        let mut score: i32 = 0;
        let mut column: usize = 0;
        while column < 7
            invariant
                column <= 7,
                player != Player::Unset,
                no_line(self.cells@),
                score == columns_score(self.cells@, player, column as int),
            decreases 7 - column,
        {
            proof {
                lemma_columns_score_bound(self.cells@, player, column as int);
                lemma_windows_sum_bound(self.cells@, player, column as int, COLUMN_OFFSETS@, 3);
                self.lemma_diagonal_undecided(player, column as int, COLUMN_OFFSETS@, 6, 1, 0);
            }
            score += self.sum_windows(player, column, &COLUMN_OFFSETS, 6);
            column += 1;
        }
        score
    }

    /// On a board without a line of four, every run of four among the first
    /// `amount` cells of the line that starts in `index` is undecided.
    #[verifier::rlimit(50)]
    proof fn lemma_diagonal_undecided(
        &self,
        player: Player,
        index: int,
        offsets: Seq<usize>,
        amount: int,
        down: int,
        right: int,
    )
        requires
            player != Player::Unset,
            no_line(self.cells@),
            down == 1,
            right == 0 || right == 1 || right == -1,
            offsets.len() == 6,
            forall|k: int| 0 <= k < 6 ==> #[trigger] offsets[k] == k * (7 + right),
            4 <= amount <= 6,
            0 <= index < 21,
            index / 7 + amount <= 6,
            right == 1 ==> index % 7 + amount <= 7,
            right == -1 ==> index % 7 + 1 >= amount,
        ensures
            forall|x: int|
                0 <= x && x + 3 < amount ==> undecided(
                    self.cells@,
                    player,
                    index + #[trigger] offsets[x],
                    index + offsets[x + 1],
                    index + offsets[x + 2],
                    index + offsets[x + 3],
                ),
    {
        assert forall|x: int| 0 <= x && x + 3 < amount implies undecided(
            self.cells@,
            player,
            index + #[trigger] offsets[x],
            index + offsets[x + 1],
            index + offsets[x + 2],
            index + offsets[x + 3],
        ) by {
            assert(offsets[x] == x * (7 + right));
            assert(offsets[x + 1] == (x + 1) * (7 + right));
            assert(offsets[x + 2] == (x + 2) * (7 + right));
            assert(offsets[x + 3] == (x + 3) * (7 + right));
            if x == 0 {
                lemma_window_undecided(self.cells@, player, index, down, right);
            } else if x == 1 {
                lemma_window_undecided(self.cells@, player, index + (7 + right), down, right);
            } else {
                lemma_window_undecided(self.cells@, player, index + 2 * (7 + right), down, right);
            }
        }
    }

    /// The runs of four along the diagonals that fall to the right.
    pub fn score_position_diagonal_tl(&self, player: Player) -> (r: i32)
        requires
            player != Player::Unset,
            no_line(self.cells@),
        ensures
            r == falling_score(self.cells@, player),
    {
        proof {
            lemma_windows_sum_bound(self.cells@, player, 0, FALLING_OFFSETS@, 3);
            lemma_windows_sum_bound(self.cells@, player, 1, FALLING_OFFSETS@, 3);
            lemma_windows_sum_bound(self.cells@, player, 2, FALLING_OFFSETS@, 2);
            lemma_windows_sum_bound(self.cells@, player, 7, FALLING_OFFSETS@, 2);
            lemma_windows_sum_bound(self.cells@, player, 3, FALLING_OFFSETS@, 1);
            lemma_windows_sum_bound(self.cells@, player, 14, FALLING_OFFSETS@, 1);
            self.lemma_diagonal_undecided(player, 0, FALLING_OFFSETS@, 6, 1, 1);
            self.lemma_diagonal_undecided(player, 1, FALLING_OFFSETS@, 6, 1, 1);
            self.lemma_diagonal_undecided(player, 2, FALLING_OFFSETS@, 5, 1, 1);
            self.lemma_diagonal_undecided(player, 7, FALLING_OFFSETS@, 5, 1, 1);
            self.lemma_diagonal_undecided(player, 3, FALLING_OFFSETS@, 4, 1, 1);
            self.lemma_diagonal_undecided(player, 14, FALLING_OFFSETS@, 4, 1, 1);
        }
        let mut score: i32 = 0;
        // The two diagonals of six cells.
        score += self.sum_windows(player, 0, &FALLING_OFFSETS, 6);
        score += self.sum_windows(player, 1, &FALLING_OFFSETS, 6);
        // The two diagonals of five cells.
        score += self.sum_windows(player, 2, &FALLING_OFFSETS, 5);
        score += self.sum_windows(player, 7, &FALLING_OFFSETS, 5);
        // The two diagonals of four cells. Shorter ones hold no run of four.
        score += self.sum_windows(player, 3, &FALLING_OFFSETS, 4);
        score += self.sum_windows(player, 14, &FALLING_OFFSETS, 4);
        score
    }

    /// The runs of four along the diagonals that fall to the left.
    pub fn score_position_diagonal_tr(&self, player: Player) -> (r: i32)
        requires
            player != Player::Unset,
            no_line(self.cells@),
        ensures
            r == rising_score(self.cells@, player),
    {
        proof {
            lemma_windows_sum_bound(self.cells@, player, 5, RISING_OFFSETS@, 3);
            lemma_windows_sum_bound(self.cells@, player, 6, RISING_OFFSETS@, 3);
            lemma_windows_sum_bound(self.cells@, player, 4, RISING_OFFSETS@, 2);
            lemma_windows_sum_bound(self.cells@, player, 13, RISING_OFFSETS@, 2);
            lemma_windows_sum_bound(self.cells@, player, 3, RISING_OFFSETS@, 1);
            lemma_windows_sum_bound(self.cells@, player, 20, RISING_OFFSETS@, 1);
            self.lemma_diagonal_undecided(player, 5, RISING_OFFSETS@, 6, 1, -1);
            self.lemma_diagonal_undecided(player, 6, RISING_OFFSETS@, 6, 1, -1);
            self.lemma_diagonal_undecided(player, 4, RISING_OFFSETS@, 5, 1, -1);
            self.lemma_diagonal_undecided(player, 13, RISING_OFFSETS@, 5, 1, -1);
            self.lemma_diagonal_undecided(player, 3, RISING_OFFSETS@, 4, 1, -1);
            self.lemma_diagonal_undecided(player, 20, RISING_OFFSETS@, 4, 1, -1);
        }
        let mut score: i32 = 0;
        // The two diagonals of six cells.
        score += self.sum_windows(player, 5, &RISING_OFFSETS, 6);
        score += self.sum_windows(player, 6, &RISING_OFFSETS, 6);
        // The two diagonals of five cells.
        score += self.sum_windows(player, 4, &RISING_OFFSETS, 5);
        score += self.sum_windows(player, 13, &RISING_OFFSETS, 5);
        // The two diagonals of four cells.
        score += self.sum_windows(player, 3, &RISING_OFFSETS, 4);
        score += self.sum_windows(player, 20, &RISING_OFFSETS, 4);
        score
    }

    /// The static score of the board for `player`.
    pub fn score_position(&self, player: Player) -> (r: i32)
        requires
            player != Player::Unset,
            no_line(self.cells@),
        ensures
            r == score(self.cells@, player),
            -6918 <= r <= 6918,
    {
        proof {
            lemma_score_bound(self.cells@, player);
            lemma_rows_score_bound(self.cells@, player, 6);
            lemma_columns_score_bound(self.cells@, player, 7);
        }
        let center = self.score_position_center_column(player);
        let rows = self.score_position_horizontal(player);
        let columns = self.score_position_vertical(player);
        let falling = self.score_position_diagonal_tl(player);
        let rising = self.score_position_diagonal_tr(player);
        proof {
            lemma_windows_sum_bound(self.cells@, player, 0, FALLING_OFFSETS@, 3);
            lemma_windows_sum_bound(self.cells@, player, 1, FALLING_OFFSETS@, 3);
            lemma_windows_sum_bound(self.cells@, player, 2, FALLING_OFFSETS@, 2);
            lemma_windows_sum_bound(self.cells@, player, 7, FALLING_OFFSETS@, 2);
            lemma_windows_sum_bound(self.cells@, player, 3, FALLING_OFFSETS@, 1);
            lemma_windows_sum_bound(self.cells@, player, 14, FALLING_OFFSETS@, 1);
            lemma_windows_sum_bound(self.cells@, player, 5, RISING_OFFSETS@, 3);
            lemma_windows_sum_bound(self.cells@, player, 6, RISING_OFFSETS@, 3);
            lemma_windows_sum_bound(self.cells@, player, 4, RISING_OFFSETS@, 2);
            lemma_windows_sum_bound(self.cells@, player, 13, RISING_OFFSETS@, 2);
            lemma_windows_sum_bound(self.cells@, player, 3, RISING_OFFSETS@, 1);
            lemma_windows_sum_bound(self.cells@, player, 20, RISING_OFFSETS@, 1);
        }
        center + rows + columns + falling + rising
    }
}

} // verus!
