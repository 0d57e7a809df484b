//! Tic-tac-toe: the board, the winner of a position, the minimax search with
//! alpha-beta pruning, and the choice of the machine's move.

use crate::common::players::Players;
use crate::games::search::searched;
use crate::player::U_INVALID_INDEX;
use vstd::prelude::*;

verus! {

/// The number of columns.
pub const BOARD_WIDTH: usize = 3;

/// The number of rows.
pub const BOARD_HEIGHT: usize = 3;

/// The number of cells.
pub const BOARD_CELLS: usize = 9;

/// The score of a position that the human player has won.
pub const OUTCOME_HUMAN_WINS: i8 = -20;

/// The score of a position that the machine has won.
pub const OUTCOME_MACHINE_WINS: i8 = 20;

/// The score of a position that nobody has won when the search ends.
pub const OUTCOME_DRAW: i8 = 0;

/// The cells of a board, row after row from the top.
pub type AiCells = [Players; BOARD_CELLS];

/// Whether three cell states are the same.
pub fn compare(a: Players, b: Players, c: Players) -> (r: bool)
    ensures
        r == (a == b && b == c),
{
    a == b && b == c
}

/// Who holds all of the cells `a`, `b` and `c`, if anybody does.
pub open spec fn line_owner(cells: Seq<Players>, a: int, b: int, c: int) -> Players {
    if cells[a] == cells[b] && cells[b] == cells[c] {
        cells[a]
    } else {
        Players::Unset
    }
}

/// `player` holds a whole row, column or diagonal.
pub open spec fn has_line(cells: Seq<Players>, player: Players) -> bool {
    ||| line_owner(cells, 0, 1, 2) == player
    ||| line_owner(cells, 3, 4, 5) == player
    ||| line_owner(cells, 6, 7, 8) == player
    ||| line_owner(cells, 0, 3, 6) == player
    ||| line_owner(cells, 1, 4, 7) == player
    ||| line_owner(cells, 2, 5, 8) == player
    ||| line_owner(cells, 0, 4, 8) == player
    ||| line_owner(cells, 6, 4, 2) == player
}

/// The owner of the first line that somebody holds, taking the rows from
/// the top, then the columns from the left, then the two diagonals; nobody
/// where no line is held.
pub open spec fn winner(cells: Seq<Players>) -> Players {
    if line_owner(cells, 0, 1, 2) != Players::Unset {
        line_owner(cells, 0, 1, 2)
    } else if line_owner(cells, 3, 4, 5) != Players::Unset {
        line_owner(cells, 3, 4, 5)
    } else if line_owner(cells, 6, 7, 8) != Players::Unset {
        line_owner(cells, 6, 7, 8)
    } else if line_owner(cells, 0, 3, 6) != Players::Unset {
        line_owner(cells, 0, 3, 6)
    } else if line_owner(cells, 1, 4, 7) != Players::Unset {
        line_owner(cells, 1, 4, 7)
    } else if line_owner(cells, 2, 5, 8) != Players::Unset {
        line_owner(cells, 2, 5, 8)
    } else if line_owner(cells, 0, 4, 8) != Players::Unset {
        line_owner(cells, 0, 4, 8)
    } else {
        line_owner(cells, 6, 4, 2)
    }
}

/// No cell is empty.
pub open spec fn full(cells: Seq<Players>) -> bool {
    forall|i: int| 0 <= i < 9 ==> #[trigger] cells[i] != Players::Unset
}

/// The value of a position in which the human player is to move, looking
/// `depth` moves ahead: the score of a machine win if the machine is the
/// winner; the draw score if the board is full or `depth` is 0; else the
/// least value among the replies.
pub open spec fn min_value(cells: Seq<Players>, depth: nat) -> int
    decreases depth, 10int,
{
    if winner(cells) == Players::Machine {
        OUTCOME_MACHINE_WINS as int
    } else if depth == 0 || full(cells) {
        OUTCOME_DRAW as int
    } else {
        min_replies(cells, depth, 9)
    }
}

/// The least value among the human player's moves into the first `count`
/// cells, and the largest 8-bit number if none of them is empty.
pub open spec fn min_replies(cells: Seq<Players>, depth: nat, count: int) -> int
    decreases depth, count,
{
    if count <= 0 || depth == 0 {
        i8::MAX as int
    } else {
        let rest = min_replies(cells, depth, count - 1);
        if cells[count - 1] == Players::Unset {
            let reply = max_value(cells.update(count - 1, Players::Player), (depth - 1) as nat);
            if reply < rest {
                reply
            } else {
                rest
            }
        } else {
            rest
        }
    }
}

/// The value of a position in which the machine is to move, looking `depth`
/// moves ahead: the score of a human win if the human player is the winner;
/// the draw score if the board is full or `depth` is 0; else the greatest
/// value among the replies.
pub open spec fn max_value(cells: Seq<Players>, depth: nat) -> int
    decreases depth, 10int,
{
    if winner(cells) == Players::Player {
        OUTCOME_HUMAN_WINS as int
    } else if depth == 0 || full(cells) {
        OUTCOME_DRAW as int
    } else {
        max_replies(cells, depth, 9)
    }
}

/// The greatest value among the machine's moves into the first `count`
/// cells, and the smallest 8-bit number if none of them is empty.
pub open spec fn max_replies(cells: Seq<Players>, depth: nat, count: int) -> int
    decreases depth, count,
{
    if count <= 0 || depth == 0 {
        i8::MIN as int
    } else {
        let rest = max_replies(cells, depth, count - 1);
        if cells[count - 1] == Players::Unset {
            let reply = min_value(cells.update(count - 1, Players::Machine), (depth - 1) as nat);
            if reply > rest {
                reply
            } else {
                rest
            }
        } else {
            rest
        }
    }
}

/// The search below this position ends at once.
pub open spec fn is_leaf(cells: Seq<Players>, depth: nat, mover: Players) -> bool {
    winner(cells) == mover || depth == 0 || full(cells)
}

/// The first of the cells from `from` on that is empty, and 9 if none is.
pub open spec fn first_empty(cells: Seq<Players>, from: int) -> int
    decreases 9 - from,
{
    if from >= 9 {
        9
    } else if cells[from] == Players::Unset {
        from
    } else {
        first_empty(cells, from + 1)
    }
}

/// What is found with the human player to move by always trying the first
/// move only: the value of the position where the search ends at once, else
/// what is found after the human player's first move.
pub open spec fn leftmost_min(cells: Seq<Players>, depth: nat) -> int
    decreases depth,
{
    if is_leaf(cells, depth, Players::Machine) {
        min_value(cells, depth)
    } else {
        leftmost_max(cells.update(first_empty(cells, 0), Players::Player), (depth - 1) as nat)
    }
}

/// What is found with the machine to move by always trying the first move
/// only.
pub open spec fn leftmost_max(cells: Seq<Players>, depth: nat) -> int
    decreases depth,
{
    if is_leaf(cells, depth, Players::Player) {
        max_value(cells, depth)
    } else {
        leftmost_min(cells.update(first_empty(cells, 0), Players::Machine), (depth - 1) as nat)
    }
}

/// What the pruned search returns with the human player to move and the
/// window from `alpha` to `beta`: the value of the position where the search
/// ends at once, else what the scan of the replies ends with.
pub open spec fn pruned_min(cells: Seq<Players>, depth: nat, alpha: int, beta: int) -> int
    decreases depth, 10int,
{
    if is_leaf(cells, depth, Players::Machine) {
        min_value(cells, depth)
    } else {
        min_scan(cells, depth, alpha, beta, 0, i8::MAX as int)
    }
}

/// What the scan of the human player's replies ends with, from `cell` on,
/// where `best` is the least result so far and `beta` the upper end of the
/// window as lowered so far: a result below `best` takes its place and
/// lowers `beta`; the scan stops with the first such result for which `beta`
/// is no longer above `alpha`.
pub open spec fn min_scan(
    cells: Seq<Players>,
    depth: nat,
    alpha: int,
    beta: int,
    cell: int,
    best: int,
) -> int
    decreases depth, 9 - cell,
{
    if cell >= 9 || cell < 0 || depth == 0 {
        best
    } else if cells[cell] != Players::Unset {
        min_scan(cells, depth, alpha, beta, cell + 1, best)
    } else {
        let reply = pruned_max(cells.update(cell, Players::Player), (depth - 1) as nat, alpha, beta);
        if reply < best {
            let lowered = if beta < reply {
                beta
            } else {
                reply
            };
            if alpha >= lowered {
                reply
            } else {
                min_scan(cells, depth, alpha, lowered, cell + 1, reply)
            }
        } else {
            min_scan(cells, depth, alpha, beta, cell + 1, best)
        }
    }
}

/// What the pruned search returns with the machine to move and the window
/// from `alpha` to `beta`.
pub open spec fn pruned_max(cells: Seq<Players>, depth: nat, alpha: int, beta: int) -> int
    decreases depth, 10int,
{
    if is_leaf(cells, depth, Players::Player) {
        max_value(cells, depth)
    } else {
        max_scan(cells, depth, alpha, beta, 0, i8::MIN as int)
    }
}

/// What the scan of the machine's replies ends with, from `cell` on, where
/// `best` is the greatest result so far and `alpha` the lower end of the
/// window as raised so far: a result above `best` takes its place and raises
/// `alpha`; the scan stops with the first such result for which `alpha` is no
/// longer below `beta`.
pub open spec fn max_scan(
    cells: Seq<Players>,
    depth: nat,
    alpha: int,
    beta: int,
    cell: int,
    best: int,
) -> int
    decreases depth, 9 - cell,
{
    if cell >= 9 || cell < 0 || depth == 0 {
        best
    } else if cells[cell] != Players::Unset {
        max_scan(cells, depth, alpha, beta, cell + 1, best)
    } else {
        let reply = pruned_min(cells.update(cell, Players::Machine), (depth - 1) as nat, alpha, beta);
        if reply > best {
            let raised = if alpha > reply {
                alpha
            } else {
                reply
            };
            if raised >= beta {
                reply
            } else {
                max_scan(cells, depth, raised, beta, cell + 1, reply)
            }
        } else {
            max_scan(cells, depth, alpha, beta, cell + 1, best)
        }
    }
}

/// A score between that of a human win and that of a machine win.
pub open spec fn bounded(value: int) -> bool {
    OUTCOME_HUMAN_WINS <= value <= OUTCOME_MACHINE_WINS
}

/// The value for the machine of taking `cell` and then searching `depth`
/// moves ahead.
pub open spec fn reply_value(cells: Seq<Players>, cell: int, depth: nat) -> int {
    min_value(cells.update(cell, Players::Machine), depth)
}

/// `cell` is the best reply among the first `count` cells and `value` is
/// its value; or none of these cells is empty, `cell` is the no-move index
/// and `value` the smallest 8-bit number.
pub open spec fn is_best_among(
    cells: Seq<Players>,
    depth: nat,
    count: int,
    cell: int,
    value: int,
) -> bool {
    if cell == U_INVALID_INDEX {
        value == i8::MIN && forall|k: int| 0 <= k < count ==> #[trigger] cells[k] != Players::Unset
    } else {
        &&& 0 <= cell < count
        &&& cells[cell] == Players::Unset
        &&& value == reply_value(cells, cell, depth)
        &&& forall|k: int|
            0 <= k < count && cells[k] == Players::Unset ==> #[trigger] reply_value(cells, k, depth)
                <= value
        &&& forall|k: int|
            0 <= k < cell && cells[k] == Players::Unset ==> #[trigger] reply_value(cells, k, depth)
                < value
    }
}

/// `cell` is the machine's move: the no-move index if no depth is given or
/// the board is full; else the empty cell whose value no other empty cell
/// exceeds, and the first of these.
pub open spec fn is_best_reply(cells: Seq<Players>, depth: nat, cell: int) -> bool {
    if depth == 0 || full(cells) {
        cell == U_INVALID_INDEX
    } else {
        &&& 0 <= cell < 9
        &&& cells[cell] == Players::Unset
        &&& forall|k: int|
            0 <= k < 9 && cells[k] == Players::Unset ==> #[trigger] reply_value(cells, k, depth)
                <= reply_value(cells, cell, depth)
        &&& forall|k: int|
            0 <= k < cell && cells[k] == Players::Unset ==> #[trigger] reply_value(cells, k, depth)
                < reply_value(cells, cell, depth)
    }
}

/// Every cell is empty.
pub open spec fn blank(cells: Seq<Players>) -> bool {
    forall|i: int| 0 <= i < 9 ==> #[trigger] cells[i] == Players::Unset
}

/// `cell` is what move selection answers with `depth` moves to look ahead:
/// the middle cell on the empty board, else the best reply.
pub open spec fn is_best_move(cells: Seq<Players>, depth: nat, cell: int) -> bool {
    if blank(cells) {
        cell == 4
    } else {
        is_best_reply(cells, depth, cell)
    }
}

/// Emptying a cell that a move filled restores the board.
pub proof fn lemma_remove_undoes_add(cells: Seq<Players>, cell: int, player: Players)
    requires
        0 <= cell < cells.len(),
        cells[cell] == Players::Unset,
    ensures
        cells.update(cell, player).update(cell, Players::Unset) == cells,
{
    assert(cells.update(cell, player).update(cell, Players::Unset) =~= cells);
}

/// Somebody is the winner exactly where somebody holds a line, and the
/// winner holds one. Where only one player holds a line, that player is the
/// winner.
pub proof fn lemma_winner_holds_line(cells: Seq<Players>)
    ensures
        winner(cells) != Players::Unset <==> has_line(cells, Players::Player) || has_line(
            cells,
            Players::Machine,
        ),
        winner(cells) != Players::Unset ==> has_line(cells, winner(cells)),
        has_line(cells, Players::Player) && !has_line(cells, Players::Machine) ==> winner(cells)
            == Players::Player,
        has_line(cells, Players::Machine) && !has_line(cells, Players::Player) ==> winner(cells)
            == Players::Machine,
{
}

/// Only one cell is the best reply.
pub proof fn lemma_best_reply_unique(cells: Seq<Players>, depth: nat, a: int, b: int)
    requires
        is_best_reply(cells, depth, a),
        is_best_reply(cells, depth, b),
    ensures
        a == b,
{
    if !(depth == 0 || full(cells)) {
        if a < b {
            assert(reply_value(cells, a, depth) < reply_value(cells, b, depth));
            assert(reply_value(cells, b, depth) <= reply_value(cells, a, depth));
        } else if b < a {
            assert(reply_value(cells, b, depth) < reply_value(cells, a, depth));
            assert(reply_value(cells, a, depth) <= reply_value(cells, b, depth));
        }
    }
}

/// Every value lies between the score of a human win and that of a machine
/// win.
pub proof fn lemma_value_bounds(cells: Seq<Players>, depth: nat)
    ensures
        bounded(min_value(cells, depth)),
        bounded(max_value(cells, depth)),
    decreases depth, 10int,
{
    if depth > 0 {
        lemma_replies_bounds(cells, depth, 9);
        if !full(cells) {
            let i = choose|i: int| 0 <= i < 9 && #[trigger] cells[i] == Players::Unset;
            assert(cells[i] == Players::Unset);
        }
    }
}

/// The best among the replies into the first `count` cells is bounded as
/// every value is, unless none of these cells is empty.
pub proof fn lemma_replies_bounds(cells: Seq<Players>, depth: nat, count: int)
    requires
        depth > 0,
        0 <= count <= 9,
    ensures
        bounded(min_replies(cells, depth, count)) || (min_replies(cells, depth, count) == i8::MAX
            && forall|k: int| 0 <= k < count ==> #[trigger] cells[k] != Players::Unset),
        bounded(max_replies(cells, depth, count)) || (max_replies(cells, depth, count) == i8::MIN
            && forall|k: int| 0 <= k < count ==> #[trigger] cells[k] != Players::Unset),
    decreases depth, count,
{
    if count > 0 {
        lemma_replies_bounds(cells, depth, count - 1);
        lemma_value_bounds(cells.update(count - 1, Players::Player), (depth - 1) as nat);
        lemma_value_bounds(cells.update(count - 1, Players::Machine), (depth - 1) as nat);
    }
}

/// Where no cell from `from` on is empty, each of them is taken.
proof fn lemma_none_empty(cells: Seq<Players>, from: int)
    requires
        0 <= from <= 9,
        first_empty(cells, from) == 9,
    ensures
        forall|k: int| from <= k < 9 ==> #[trigger] cells[k] != Players::Unset,
    decreases 9 - from,
{
    if from < 9 {
        lemma_none_empty(cells, from + 1);
    }
}

/// What the first moves lead to is bounded as every value is.
pub proof fn lemma_leftmost_bounds(cells: Seq<Players>, depth: nat)
    ensures
        bounded(leftmost_min(cells, depth)),
        bounded(leftmost_max(cells, depth)),
    decreases depth,
{
    lemma_value_bounds(cells, depth);
    if depth > 0 {
        lemma_leftmost_bounds(
            cells.update(first_empty(cells, 0), Players::Player),
            (depth - 1) as nat,
        );
        lemma_leftmost_bounds(
            cells.update(first_empty(cells, 0), Players::Machine),
            (depth - 1) as nat,
        );
    }
}

/// The least value among the replies can only fall, and the greatest only
/// rise, as more cells are taken in.
pub proof fn lemma_replies_monotone(cells: Seq<Players>, depth: nat, count: int, more: int)
    requires
        0 <= count <= more,
    ensures
        min_replies(cells, depth, more) <= min_replies(cells, depth, count),
        max_replies(cells, depth, more) >= max_replies(cells, depth, count),
    decreases more - count,
{
    if count < more {
        lemma_replies_monotone(cells, depth, count, more - 1);
    }
}

/// Pruning does not change the result: with a window that is not empty,
/// what the pruned search returns is the minimax value where that value lies
/// inside the window, and else lies on the same side of the window as the
/// value, no further out.
pub proof fn lemma_pruning_is_sound(cells: Seq<Players>, depth: nat, alpha: int, beta: int)
    requires
        i8::MIN <= alpha < beta <= i8::MAX,
    ensures
        searched(min_value(cells, depth), pruned_min(cells, depth, alpha, beta), alpha, beta),
        searched(max_value(cells, depth), pruned_max(cells, depth, alpha, beta), alpha, beta),
    decreases depth, 10int,
{
    if depth > 0 {
        lemma_min_scan_is_sound(cells, depth, alpha, beta, beta, 0, i8::MAX as int);
        lemma_max_scan_is_sound(cells, depth, alpha, alpha, beta, 0, i8::MIN as int);
    }
}

/// What holds of the scan of the human player's replies from `cell` on,
/// where `best` is the least value among the replies before it unless it
/// reached the upper end of the window, and is no more than that value.
#[verifier::rlimit(50)]
proof fn lemma_min_scan_is_sound(
    cells: Seq<Players>,
    depth: nat,
    alpha: int,
    beta: int,
    lowered: int,
    cell: int,
    best: int,
)
    requires
        depth > 0,
        0 <= cell <= 9,
        i8::MIN <= alpha < beta <= i8::MAX,
        lowered == if beta < best { beta } else { best },
        alpha < lowered,
        min_replies(cells, depth, cell) >= best,
        best < beta ==> min_replies(cells, depth, cell) == best,
    ensures
        searched(
            min_replies(cells, depth, 9),
            min_scan(cells, depth, alpha, lowered, cell, best),
            alpha,
            beta,
        ),
    decreases depth, 9 - cell,
{
    if cell < 9 {
        if cells[cell] == Players::Unset {
            let next = cells.update(cell, Players::Player);
            lemma_pruning_is_sound(next, (depth - 1) as nat, alpha, lowered);
            let reply = pruned_max(next, (depth - 1) as nat, alpha, lowered);
            if reply < best {
                let lower = if lowered < reply {
                    lowered
                } else {
                    reply
                };
                if alpha >= lower {
                    lemma_replies_monotone(cells, depth, cell + 1, 9);
                } else {
                    lemma_min_scan_is_sound(cells, depth, alpha, beta, lower, cell + 1, reply);
                }
            } else {
                lemma_min_scan_is_sound(cells, depth, alpha, beta, lowered, cell + 1, best);
            }
        } else {
            lemma_min_scan_is_sound(cells, depth, alpha, beta, lowered, cell + 1, best);
        }
    }
}

/// What holds of the scan of the machine's replies from `cell` on, where
/// `best` is the greatest value among the replies before it unless it
/// reached the lower end of the window, and is no less than that value.
#[verifier::rlimit(50)]
proof fn lemma_max_scan_is_sound(
    cells: Seq<Players>,
    depth: nat,
    alpha: int,
    raised: int,
    beta: int,
    cell: int,
    best: int,
)
    requires
        depth > 0,
        0 <= cell <= 9,
        i8::MIN <= alpha < beta <= i8::MAX,
        raised == if alpha > best { alpha } else { best },
        raised < beta,
        max_replies(cells, depth, cell) <= best,
        best > alpha ==> max_replies(cells, depth, cell) == best,
    ensures
        searched(
            max_replies(cells, depth, 9),
            max_scan(cells, depth, raised, beta, cell, best),
            alpha,
            beta,
        ),
    decreases depth, 9 - cell,
{
    if cell < 9 {
        if cells[cell] == Players::Unset {
            let next = cells.update(cell, Players::Machine);
            lemma_pruning_is_sound(next, (depth - 1) as nat, raised, beta);
            let reply = pruned_min(next, (depth - 1) as nat, raised, beta);
            if reply > best {
                let higher = if raised > reply {
                    raised
                } else {
                    reply
                };
                if higher >= beta {
                    lemma_replies_monotone(cells, depth, cell + 1, 9);
                } else {
                    lemma_max_scan_is_sound(cells, depth, alpha, higher, beta, cell + 1, reply);
                }
            } else {
                lemma_max_scan_is_sound(cells, depth, alpha, raised, beta, cell + 1, best);
            }
        } else {
            lemma_max_scan_is_sound(cells, depth, alpha, raised, beta, cell + 1, best);
        }
    }
}

/// With the widest window the pruned search returns the minimax value.
pub proof fn lemma_full_window(cells: Seq<Players>, depth: nat)
    ensures
        pruned_min(cells, depth, i8::MIN as int, i8::MAX as int) == min_value(cells, depth),
        pruned_max(cells, depth, i8::MIN as int, i8::MAX as int) == max_value(cells, depth),
{
    lemma_pruning_is_sound(cells, depth, i8::MIN as int, i8::MAX as int);
    lemma_value_bounds(cells, depth);
}

/// With an empty window the pruned search looks at the first move of each
/// side only.
pub proof fn lemma_closed_window(cells: Seq<Players>, depth: nat, alpha: int, beta: int)
    requires
        alpha >= beta,
    ensures
        pruned_min(cells, depth, alpha, beta) == leftmost_min(cells, depth),
        pruned_max(cells, depth, alpha, beta) == leftmost_max(cells, depth),
    decreases depth, 10int,
{
    if depth > 0 && !full(cells) {
        lemma_closed_scan(cells, depth, alpha, beta, 0);
    }
}

/// With an empty window the scan ends with what the first reply leads to.
proof fn lemma_closed_scan(cells: Seq<Players>, depth: nat, alpha: int, beta: int, cell: int)
    requires
        depth > 0,
        !full(cells),
        alpha >= beta,
        0 <= cell <= 9,
        first_empty(cells, 0) == first_empty(cells, cell),
    ensures
        min_scan(cells, depth, alpha, beta, cell, i8::MAX as int) == leftmost_max(
            cells.update(first_empty(cells, 0), Players::Player),
            (depth - 1) as nat,
        ),
        max_scan(cells, depth, alpha, beta, cell, i8::MIN as int) == leftmost_min(
            cells.update(first_empty(cells, 0), Players::Machine),
            (depth - 1) as nat,
        ),
    decreases depth, 9 - cell,
{
    if cell >= 9 {
        lemma_none_empty(cells, 0);
    } else if cells[cell] == Players::Unset {
        lemma_closed_window(cells.update(cell, Players::Player), (depth - 1) as nat, alpha, beta);
        lemma_closed_window(cells.update(cell, Players::Machine), (depth - 1) as nat, alpha, beta);
        lemma_leftmost_bounds(cells.update(cell, Players::Player), (depth - 1) as nat);
        lemma_leftmost_bounds(cells.update(cell, Players::Machine), (depth - 1) as nat);
    } else {
        lemma_closed_scan(cells, depth, alpha, beta, cell + 1);
    }
}

/// A full board on which the side that just moved holds no line is a draw.
pub proof fn lemma_full_board_is_draw(cells: Seq<Players>, depth: nat)
    requires
        full(cells),
    ensures
        winner(cells) != Players::Machine ==> min_value(cells, depth) == OUTCOME_DRAW,
        winner(cells) != Players::Player ==> max_value(cells, depth) == OUTCOME_DRAW,
{
}

/// A cell that is taken leaves the best reply as it is.
proof fn lemma_best_skip(cells: Seq<Players>, depth: nat, c: int, cell: int, value: int)
    requires
        0 <= c < 9,
        cells[c] != Players::Unset,
        is_best_among(cells, depth, c, cell, value),
    ensures
        is_best_among(cells, depth, c + 1, cell, value),
{
}

/// An empty cell becomes the best reply where its value is above the best

/// so far, and else leaves it as it is.
proof fn lemma_best_step(cells: Seq<Players>, depth: nat, c: int, cell: int, value: int)
    requires
        0 <= c < 9,
        cells[c] == Players::Unset,
        is_best_among(cells, depth, c, cell, value),
    ensures
        bounded(reply_value(cells, c, depth)),
        reply_value(cells, c, depth) > value ==> is_best_among(
            cells,
            depth,
            c + 1,
            c,
            reply_value(cells, c, depth),
        ),
        reply_value(cells, c, depth) <= value ==> is_best_among(cells, depth, c + 1, cell, value),
{
    lemma_value_bounds(cells.update(c, Players::Machine), depth);
}

/// What holds when the choice stops at cell `count`: the best of the cells
/// before it is the best of all once it is a machine win.
proof fn lemma_best_done(cells: Seq<Players>, depth: nat, count: int, cell: int, value: int)
    requires
        depth > 0,
        0 <= count <= 9,
        is_best_among(cells, depth, count, cell, value),
        count == 9 || (cell != U_INVALID_INDEX && value >= OUTCOME_MACHINE_WINS),
    ensures
        is_best_reply(cells, depth, cell),
{
    if cell != U_INVALID_INDEX {
        assert forall|k: int| 0 <= k < 9 && cells[k] == Players::Unset implies #[trigger] reply_value(
            cells,
            k,
            depth,
        ) <= reply_value(cells, cell, depth) by {
            lemma_value_bounds(cells.update(k, Players::Machine), depth);
        }
    }
}

/// The tic-tac-toe board: nine cells, row after row from the top.
pub struct AiBoard {
    pub cells: AiCells,
}

impl AiBoard {
    /// The board with the given cells.
    pub fn new(cells: AiCells) -> (board: Self)
        ensures
            board.cells == cells,
    {
        Self { cells }
    }

    /// The owner of the first line that somebody holds: rows first, then
    /// columns, then the diagonals.
    #[verifier::rlimit(50)]
    pub fn status(&self) -> (r: Players)
        ensures
            r == winner(self.cells@),
    {
        let mut i: usize = 0;
        while i < 9
            invariant
                i == 0 || i == 3 || i == 6 || i == 9,
                i >= 3 ==> line_owner(self.cells@, 0, 1, 2) == Players::Unset,
                i >= 6 ==> line_owner(self.cells@, 3, 4, 5) == Players::Unset,
                i >= 9 ==> line_owner(self.cells@, 6, 7, 8) == Players::Unset,
            decreases 9 - i,
        {
            let a = self.cells[i];
            if a != Players::Unset && compare(a, self.cells[i + 1], self.cells[i + 2]) {
                return a;
            }
            i += 3;
        }
        let mut i: usize = 0;
        while i < 3
            invariant
                i <= 3,
                line_owner(self.cells@, 0, 1, 2) == Players::Unset,
                line_owner(self.cells@, 3, 4, 5) == Players::Unset,
                line_owner(self.cells@, 6, 7, 8) == Players::Unset,
                i >= 1 ==> line_owner(self.cells@, 0, 3, 6) == Players::Unset,
                i >= 2 ==> line_owner(self.cells@, 1, 4, 7) == Players::Unset,
                i >= 3 ==> line_owner(self.cells@, 2, 5, 8) == Players::Unset,
            decreases 3 - i,
        {
            let a = self.cells[i];
            if a != Players::Unset && compare(a, self.cells[i + 3], self.cells[i + 6]) {
                return a;
            }
            i += 1;
        }
        let middle = self.cells[4];
        if middle == Players::Unset || compare(self.cells[0], middle, self.cells[8]) || compare(
            self.cells[6],
            middle,
            self.cells[2],
        ) {
            middle
        } else {
            Players::Unset
        }
    }

    /// Whether `cell` is empty.
    pub fn available(&self, cell: usize) -> (r: bool)
        requires
            cell < 9,
        ensures
            r == (self.cells@[cell as int] == Players::Unset),
    {
        self.cells[cell] == Players::Unset
    }

    /// Whether no cell is empty.
    pub fn finished(&self) -> (r: bool)
        ensures
            r == full(self.cells@),
    {
        let mut i: usize = 0;
        while i < 9
            invariant
                i <= 9,
                forall|k: int| 0 <= k < i ==> #[trigger] self.cells@[k] != Players::Unset,
            decreases 9 - i,
        {
            if self.cells[i] == Players::Unset {
                return false;
            }
            i += 1;
        }
        true
    }

    /// Writes `player` into the empty cell `cell`.
    pub fn add(&mut self, cell: usize, player: Players)
        requires
            cell < 9,
            old(self).cells@[cell as int] == Players::Unset,
        ensures
            final(self).cells@ == old(self).cells@.update(cell as int, player),
    {
        self.cells[cell] = player;
    }

    /// Empties the taken cell `cell`.
    pub fn remove(&mut self, cell: usize)
        requires
            cell < 9,
            old(self).cells@[cell as int] != Players::Unset,
        ensures
            final(self).cells@ == old(self).cells@.update(cell as int, Players::Unset),
    {
        self.cells[cell] = Players::Unset;
    }

    /// The human player's turn: the value of the position, searched
    /// `remaining` moves ahead within the window from `alpha` to `beta`. The
    /// board is handed back as it was.
    pub fn min(&mut self, remaining: u8, alpha: i8, beta: i8) -> (r: i8)
        ensures
            *final(self) == *old(self),
            r == pruned_min(old(self).cells@, remaining as nat, alpha as int, beta as int),
            alpha < beta ==> searched(
                min_value(old(self).cells@, remaining as nat),
                r as int,
                alpha as int,
                beta as int,
            ),
            is_leaf(old(self).cells@, remaining as nat, Players::Machine) || (alpha == i8::MIN
                && beta == i8::MAX) ==> r == min_value(old(self).cells@, remaining as nat),
            alpha >= beta ==> r == leftmost_min(old(self).cells@, remaining as nat),
        decreases remaining,
    {
        proof {
            let depth = remaining as nat;
            if alpha < beta {
                lemma_pruning_is_sound(self.cells@, depth, alpha as int, beta as int);
            } else {
                lemma_closed_window(self.cells@, depth, alpha as int, beta as int);
            }
            lemma_full_window(self.cells@, depth);
        }
        if self.status() == Players::Machine {
            return OUTCOME_MACHINE_WINS;
        }
        if remaining == 0 || self.finished() {
            return OUTCOME_DRAW;
        }
        let ghost cells = self.cells@;
        let ghost depth = remaining as nat;
        let mut min_v: i8 = i8::MAX;
        let mut local_beta = beta;
        let mut cell: usize = 0;
        while cell < BOARD_CELLS
            invariant_except_break
                cell <= 9,
                min_scan(cells, depth, alpha as int, local_beta as int, cell as int, min_v as int) == min_scan(
                    cells,
                    depth,
                    alpha as int,
                    beta as int,
                    0,
                    i8::MAX as int,
                ),
            invariant
                *self == *old(self),
                cells == self.cells@,
                remaining > 0,
                depth == remaining as nat,
            ensures
                min_v == min_scan(cells, depth, alpha as int, beta as int, 0, i8::MAX as int),
            decreases 9 - cell,
        {
            if self.cells[cell] == Players::Unset {
                self.add(cell, Players::Player);
                let m = self.max(remaining - 1, alpha, local_beta);
                self.remove(cell);
                proof {
                    lemma_remove_undoes_add(cells, cell as int, Players::Player);
                    assert(self.cells =~= old(self).cells);
                }
                if m < min_v {
                    min_v = m;
                    local_beta = if local_beta < min_v {
                        local_beta
                    } else {
                        min_v
                    };
                    if alpha >= local_beta {
                        break ;
                    }
                }
            }
            cell += 1;
        }
        min_v
    }

    /// The machine's turn: the value of the position, searched `remaining`
    /// moves ahead within the window from `alpha` to `beta`. The board is
    /// handed back as it was.
    pub fn max(&mut self, remaining: u8, alpha: i8, beta: i8) -> (r: i8)
        ensures
            *final(self) == *old(self),
            r == pruned_max(old(self).cells@, remaining as nat, alpha as int, beta as int),
            alpha < beta ==> searched(
                max_value(old(self).cells@, remaining as nat),
                r as int,
                alpha as int,
                beta as int,
            ),
            is_leaf(old(self).cells@, remaining as nat, Players::Player) || (alpha == i8::MIN
                && beta == i8::MAX) ==> r == max_value(old(self).cells@, remaining as nat),
            alpha >= beta ==> r == leftmost_max(old(self).cells@, remaining as nat),
        decreases remaining,
    {
        proof {
            let depth = remaining as nat;
            if alpha < beta {
                lemma_pruning_is_sound(self.cells@, depth, alpha as int, beta as int);
            } else {
                lemma_closed_window(self.cells@, depth, alpha as int, beta as int);
            }
            lemma_full_window(self.cells@, depth);
        }
        if self.status() == Players::Player {
            return OUTCOME_HUMAN_WINS;
        }
        if remaining == 0 || self.finished() {
            return OUTCOME_DRAW;
        }
        let ghost cells = self.cells@;
        let ghost depth = remaining as nat;
        let mut max_v: i8 = i8::MIN;
        let mut local_alpha = alpha;
        let mut cell: usize = 0;
        while cell < BOARD_CELLS
            invariant_except_break
                cell <= 9,
                max_scan(cells, depth, local_alpha as int, beta as int, cell as int, max_v as int) == max_scan(
                    cells,
                    depth,
                    alpha as int,
                    beta as int,
                    0,
                    i8::MIN as int,
                ),
            invariant
                *self == *old(self),
                cells == self.cells@,
                remaining > 0,
                depth == remaining as nat,
            ensures
                max_v == max_scan(cells, depth, alpha as int, beta as int, 0, i8::MIN as int),
            decreases 9 - cell,
        {
            if self.cells[cell] == Players::Unset {
                self.add(cell, Players::Machine);
                let m = self.min(remaining - 1, local_alpha, beta);
                self.remove(cell);
                proof {
                    lemma_remove_undoes_add(cells, cell as int, Players::Machine);
                    assert(self.cells =~= old(self).cells);
                }
                if m > max_v {
                    max_v = m;
                    local_alpha = if local_alpha > max_v {
                        local_alpha
                    } else {
                        max_v
                    };
                    if local_alpha >= beta {
                        break ;
                    }
                }
            }
            cell += 1;
        }
        max_v
    }

    /// The machine's move, searched `remaining` moves ahead after each
    /// candidate. The board is handed back as it was.
    #[verifier::rlimit(50)]
    pub fn max_top(&mut self, remaining: u8) -> (r: usize)
        ensures
            *final(self) == *old(self),
            is_best_reply(old(self).cells@, remaining as nat, r as int),
    {
        if remaining == 0 {
            return U_INVALID_INDEX;
        }
        let ghost cells = self.cells@;
        let ghost depth = remaining as nat;
        let mut max_v: i8 = i8::MIN;
        let mut column = U_INVALID_INDEX;
        let mut c: usize = 0;
        while c < BOARD_CELLS
            invariant_except_break
                c <= 9,
                is_best_among(cells, depth, c as int, column as int, max_v as int),
            invariant
                *self == *old(self),
                cells == self.cells@,
                depth == remaining as nat,
                depth > 0,
            ensures
                is_best_reply(cells, depth, column as int),
            decreases 9 - c,
        {
            if self.available(c) {
                self.add(c, Players::Machine);
                let points = self.min(remaining, i8::MIN, i8::MAX);
                self.remove(c);
                proof {
                    lemma_remove_undoes_add(cells, c as int, Players::Machine);
                    assert(self.cells =~= old(self).cells);
                    lemma_best_step(cells, depth, c as int, column as int, max_v as int);
                }
                if points > max_v {
                    max_v = points;
                    column = c;
                    // No later move can score more than a win.
                    if points >= OUTCOME_MACHINE_WINS {
                        proof {
                            lemma_best_done(cells, depth, c as int + 1, column as int, max_v as int);
                        }
                        break ;
                    }
                }
            } else {
                proof {
                    lemma_best_skip(cells, depth, c as int, column as int, max_v as int);
                }
            }
            c += 1;
            proof {
                if c == 9 {
                    lemma_best_done(cells, depth, 9, column as int, max_v as int);
                }
            }
        }
        column
    }

    /// Whether every cell is empty.
    pub fn untouched(&self) -> (r: bool)
        ensures
            r == blank(self.cells@),
    {
        let mut i: usize = 0;
        while i < 9
            invariant
                i <= 9,
                forall|k: int| 0 <= k < i ==> #[trigger] self.cells@[k] == Players::Unset,
            decreases 9 - i,
        {
            if self.cells[i] != Players::Unset {
                return false;
            }
            i += 1;
        }
        true
    }

    /// The machine's move, searched `remaining` moves ahead: the middle cell
    /// on the empty board, else the best reply. The no-move index is
    /// returned where `remaining` is 0 or the board is full.
    pub fn get_best_move(&mut self, remaining: u8) -> (r: usize)
        ensures
            *final(self) == *old(self),
            is_best_move(old(self).cells@, remaining as nat, r as int),
    {
        if self.untouched() {
            4
        } else {
            self.max_top(remaining)
        }
    }
}

} // verus!
