//! The search on the four-in-a-row board: minimax to a given depth, cut
//! short by alpha-beta pruning, and the choice of the machine's move.
//!
//! The value of a position is defined by the plain minimax recursion
//! ([`min_value`], [`max_value`]). What the pruned search returns for a given
//! window is defined by [`pruned_min`] and [`pruned_max`]; the executable
//! search is proved to return exactly that, and that is proved to be the
//! minimax value wherever the value lies inside the window, and a bound on it
//! elsewhere.

use crate::games::connect_four::{
    lemma_play_keeps_wf, ConnectFour, Position, BOARD_WIDTH, OUTCOME_DRAW, OUTCOME_HUMAN_WINS,
    OUTCOME_MACHINE_WINS,
};
use crate::games::heuristic::{lemma_score_bound, score};
use crate::games::lines::{lemma_found_is_line, lemma_quiet_after_move, no_line, wins_at};
use crate::player::{Player, U_INVALID_INDEX};
use vstd::prelude::*;

verus! {

impl Position {
    /// The piece in `last` lies on top of its column, and before it was
    /// dropped nobody had four in a line.
    pub open spec fn follows_move(self, last: int) -> bool {
        self.on_top(last) && no_line(self.cells.update(last, Player::Unset))
    }
}

/// The value of a position in which the machine has just played the piece in
/// `last` and the human is to move, looking `depth` moves ahead: the score of
/// a machine win if that piece closed a line; the draw score if the board is
/// full; the human's static score if `depth` is 0; else the least value among
/// the human's replies.
pub open spec fn min_value(pos: Position, last: int, depth: nat) -> int
    decreases depth, 8int,
{
    if wins_at(pos.cells, last) {
        OUTCOME_MACHINE_WINS as int
    } else if pos.full() {
        OUTCOME_DRAW as int
    } else if depth == 0 {
        score(pos.cells, Player::Human)
    } else {
        min_replies(pos, depth, 7)
    }
}

/// The least value among the human's replies in the first `columns` columns,
/// and the largest 32-bit number if none of them takes a piece.
pub open spec fn min_replies(pos: Position, depth: nat, columns: int) -> int
    decreases depth, columns,
{
    if columns <= 0 || depth == 0 {
        i32::MAX as int
    } else {
        let rest = min_replies(pos, depth, columns - 1);
        if pos.available(columns - 1) {
            let reply = max_value(
                pos.play(columns - 1, Player::Human),
                pos.landing(columns - 1),
                (depth - 1) as nat,
            );
            if reply < rest {
                reply
            } else {
                rest
            }
        } else {
            rest
        }
    }
}

/// The value of a position in which the human has just played the piece in
/// `last` and the machine is to move, looking `depth` moves ahead: the score
/// of a human win if that piece closed a line; the draw score if the board is
/// full; the machine's static score if `depth` is 0; else the greatest value
/// among the machine's replies.
pub open spec fn max_value(pos: Position, last: int, depth: nat) -> int
    decreases depth, 8int,
{
    if wins_at(pos.cells, last) {
        OUTCOME_HUMAN_WINS as int
    } else if pos.full() {
        OUTCOME_DRAW as int
    } else if depth == 0 {
        score(pos.cells, Player::Machine)
    } else {
        max_replies(pos, depth, 7)
    }
}

/// The greatest value among the machine's replies in the first `columns`
/// columns, and the smallest 32-bit number if none of them takes a piece.
pub open spec fn max_replies(pos: Position, depth: nat, columns: int) -> int
    decreases depth, columns,
{
    if columns <= 0 || depth == 0 {
        i32::MIN as int
    } else {
        let rest = max_replies(pos, depth, columns - 1);
        if pos.available(columns - 1) {
            let reply = min_value(
                pos.play(columns - 1, Player::Machine),
                pos.landing(columns - 1),
                (depth - 1) as nat,
            );
            if reply > rest {
                reply
            } else {
                rest
            }
        } else {
            rest
        }
    }
}

/// The first of the columns from `from` on that takes a piece, and 7 if
/// none does.
pub open spec fn first_available(pos: Position, from: int) -> int
    decreases 7 - from,
{
    if from >= 7 {
        7
    } else if pos.available(from) {
        from
    } else {
        first_available(pos, from + 1)
    }
}

/// What is found with the human to move by always trying the leftmost move
/// only: the value of the position where the search ends at once, else what
/// is found after the human's leftmost move.
pub open spec fn leftmost_min(pos: Position, last: int, depth: nat) -> int
    decreases depth,
{
    if is_leaf(pos, last, depth) {
        min_value(pos, last, depth)
    } else {
        let column = first_available(pos, 0);
        leftmost_max(pos.play(column, Player::Human), pos.landing(column), (depth - 1) as nat)
    }
}

/// What is found with the machine to move by always trying the leftmost
/// move only.
pub open spec fn leftmost_max(pos: Position, last: int, depth: nat) -> int
    decreases depth,
{
    if is_leaf(pos, last, depth) {
        max_value(pos, last, depth)
    } else {
        let column = first_available(pos, 0);
        leftmost_min(pos.play(column, Player::Machine), pos.landing(column), (depth - 1) as nat)
    }
}

/// What the pruned search returns with the human to move and the window from
/// `alpha` to `beta`: the value of the position where the search ends at
/// once, else what the scan of the human's replies ends with.
pub open spec fn pruned_min(pos: Position, last: int, depth: nat, alpha: int, beta: int) -> int
    decreases depth, 8int,
{
    if is_leaf(pos, last, depth) {
        min_value(pos, last, depth)
    } else {
        min_scan(pos, depth, alpha, beta, 0, i32::MAX as int)
    }
}

/// What the scan of the human's replies ends with, from `column` on, where
/// `best` is the least result so far and `beta` the upper end of the window
/// as lowered so far: each reply is searched within the window; a result
/// below `best` takes its place and lowers `beta`; the scan stops with the
/// first such result for which `beta` is no longer above `alpha`.
pub open spec fn min_scan(
    pos: Position,
    depth: nat,
    alpha: int,
    beta: int,
    column: int,
    best: int,
) -> int
    decreases depth, 7 - column,
{
    if column >= 7 || column < 0 || depth == 0 {
        best
    } else if !pos.available(column) {
        min_scan(pos, depth, alpha, beta, column + 1, best)
    } else {
        let reply = pruned_max(
            pos.play(column, Player::Human),
            pos.landing(column),
            (depth - 1) as nat,
            alpha,
            beta,
        );
        if reply < best {
            let lowered = if beta < reply {
                beta
            } else {
                reply
            };
            if alpha >= lowered {
                reply
            } else {
                min_scan(pos, depth, alpha, lowered, column + 1, reply)
            }
        } else {
            min_scan(pos, depth, alpha, beta, column + 1, best)
        }
    }
}

/// What the pruned search returns with the machine to move and the window
/// from `alpha` to `beta`.
pub open spec fn pruned_max(pos: Position, last: int, depth: nat, alpha: int, beta: int) -> int
    decreases depth, 8int,
{
    if is_leaf(pos, last, depth) {
        max_value(pos, last, depth)
    } else {
        max_scan(pos, depth, alpha, beta, 0, i32::MIN as int)
    }
}

/// What the scan of the machine's replies ends with, from `column` on, where
/// `best` is the greatest result so far and `alpha` the lower end of the
/// window as raised so far: a result above `best` takes its place and raises
/// `alpha`; the scan stops with the first such result for which `alpha` is no
/// longer below `beta`.
pub open spec fn max_scan(
    pos: Position,
    depth: nat,
    alpha: int,
    beta: int,
    column: int,
    best: int,
) -> int
    decreases depth, 7 - column,
{
    if column >= 7 || column < 0 || depth == 0 {
        best
    } else if !pos.available(column) {
        max_scan(pos, depth, alpha, beta, column + 1, best)
    } else {
        let reply = pruned_min(
            pos.play(column, Player::Machine),
            pos.landing(column),
            (depth - 1) as nat,
            alpha,
            beta,
        );
        if reply > best {
            let raised = if alpha > reply {
                alpha
            } else {
                reply
            };
            if raised >= beta {
                reply
            } else {
                max_scan(pos, depth, raised, beta, column + 1, reply)
            }
        } else {
            max_scan(pos, depth, alpha, beta, column + 1, best)
        }
    }
}

/// The search below this position ends at once: the last piece closed a
/// line, the board is full, or no depth is left.
pub open spec fn is_leaf(pos: Position, last: int, depth: nat) -> bool {
    wins_at(pos.cells, last) || pos.full() || depth == 0
}

/// What a search with the window from `alpha` to `beta` says of the value
/// `value` by returning `result`: a result inside the window is the value; a
/// result at or below `alpha` is no less than the value; a result at or above
/// `beta` is no more than the value.
pub open spec fn searched(value: int, result: int, alpha: int, beta: int) -> bool {
    &&& result <= alpha ==> value <= result
    &&& result >= beta ==> value >= result
    &&& alpha < result < beta ==> value == result
}

/// A score between that of a human win and that of a machine win.
pub open spec fn bounded(value: int) -> bool {
    OUTCOME_HUMAN_WINS <= value <= OUTCOME_MACHINE_WINS
}

/// The value for the machine of dropping a piece into `column` and then
/// searching `depth` moves ahead.
pub open spec fn reply_value(pos: Position, column: int, depth: nat) -> int {
    min_value(pos.play(column, Player::Machine), pos.landing(column), depth)
}

/// `column` is the machine's move: the no-move index if no depth is given or
/// the board is full; else the column that takes a piece and whose value no
/// other such column exceeds, and the leftmost of these.
pub open spec fn is_best_reply(pos: Position, depth: nat, column: int) -> bool {
    if depth == 0 || pos.full() {
        column == U_INVALID_INDEX
    } else {
        &&& 0 <= column < 7
        &&& pos.available(column)
        &&& forall|c: int|
            0 <= c < 7 && pos.available(c) ==> #[trigger] reply_value(pos, c, depth) <= reply_value(
                pos,
                column,
                depth,
            )
        &&& forall|c: int|
            0 <= c < column && pos.available(c) ==> #[trigger] reply_value(pos, c, depth)
                < reply_value(pos, column, depth)
    }
}

/// `column` is the best reply among the first `columns` columns and `value`
/// is its value; or none of these columns takes a piece, `column` is the
/// no-move index and `value` the smallest 32-bit number.
pub open spec fn is_best_among(
    pos: Position,
    depth: nat,
    columns: int,
    column: int,
    value: int,
) -> bool {
    if column == U_INVALID_INDEX {
        value == i32::MIN && forall|k: int| 0 <= k < columns ==> !#[trigger] pos.available(k)
    } else {
        &&& 0 <= column < columns
        &&& pos.available(column)
        &&& value == reply_value(pos, column, depth)
        &&& forall|k: int|
            0 <= k < columns && pos.available(k) ==> #[trigger] reply_value(pos, k, depth) <= value
        &&& forall|k: int|
            0 <= k < column && pos.available(k) ==> #[trigger] reply_value(pos, k, depth) < value
    }
}

/// A column that takes no piece leaves the best reply as it is.
proof fn lemma_best_skip(pos: Position, depth: nat, c: int, column: int, value: int)
    requires
        0 <= c < 7,
        !pos.available(c),
        is_best_among(pos, depth, c, column, value),
    ensures
        is_best_among(pos, depth, c + 1, column, value),
{
}

/// The value of a reply is bounded as every value is.
proof fn lemma_reply_bounded(pos: Position, depth: nat, c: int)
    requires
        pos.wf(),
        0 <= c < 7,
        pos.available(c),
    ensures
        bounded(reply_value(pos, c, depth)),
{
    lemma_play_keeps_wf(pos, c, Player::Machine);
    lemma_value_bounds(pos.play(c, Player::Machine), pos.landing(c), depth);
}

/// A column that takes a piece becomes the best reply where its value is

/// above the best so far, and else leaves it as it is.
proof fn lemma_best_step(pos: Position, depth: nat, c: int, column: int, value: int)
    requires
        0 <= c < 7,
        pos.available(c),
        reply_value(pos, c, depth) > i32::MIN,
        is_best_among(pos, depth, c, column, value),
    ensures
        reply_value(pos, c, depth) > value ==> is_best_among(
            pos,
            depth,
            c + 1,
            c,
            reply_value(pos, c, depth),
        ),
        reply_value(pos, c, depth) <= value ==> is_best_among(pos, depth, c + 1, column, value),
{
    let reply = reply_value(pos, c, depth);
    if reply > value {
        assert forall|k: int| 0 <= k < c + 1 && pos.available(k) implies #[trigger] reply_value(
            pos,
            k,
            depth,
        ) <= reply by {
            if k < c && column != U_INVALID_INDEX {
                assert(reply_value(pos, k, depth) <= value);
            }
        }
        assert forall|k: int| 0 <= k < c && pos.available(k) implies #[trigger] reply_value(
            pos,
            k,
            depth,
        ) < reply by {
            if column != U_INVALID_INDEX {
                assert(reply_value(pos, k, depth) <= value);
            }
        }
    } else {
        assert(column != U_INVALID_INDEX);
        assert forall|k: int| 0 <= k < c + 1 && pos.available(k) implies #[trigger] reply_value(
            pos,
            k,
            depth,
        ) <= value by {
            if k < c {
                assert(reply_value(pos, k, depth) <= value);
            }
        }
    }
}

/// The best reply among all seven columns is the machine's move.
proof fn lemma_best_done(pos: Position, depth: nat, column: int, value: int)
    requires
        pos.wf(),
        depth > 0,
        is_best_among(pos, depth, 7, column, value),
    ensures
        is_best_reply(pos, depth, column),
{
    if column == U_INVALID_INDEX {
        assert(!pos.available(0));
        assert(!pos.available(1));
        assert(!pos.available(2));
        assert(!pos.available(3));
        assert(!pos.available(4));
        assert(!pos.available(5));
        assert(!pos.available(6));
    }
}

/// `column` is what move selection answers with a search budget of
/// `maximum_depth`: the middle column on the empty board, else the best
/// reply at the depth of the budget or of the free cells, whichever is less.
pub open spec fn is_best_move(pos: Position, maximum_depth: nat, column: int) -> bool {
    if pos.free() == 42 {
        column == 3
    } else if pos.free() < maximum_depth {
        is_best_reply(pos, pos.free() as nat, column)
    } else {
        is_best_reply(pos, maximum_depth, column)
    }
}

/// Only one column is the best reply.
pub proof fn lemma_best_reply_unique(pos: Position, depth: nat, a: int, b: int)
    requires
        is_best_reply(pos, depth, a),
        is_best_reply(pos, depth, b),
    ensures
        a == b,
{
    if !(depth == 0 || pos.full()) {
        if a < b {
            assert(reply_value(pos, a, depth) < reply_value(pos, b, depth));
            assert(reply_value(pos, b, depth) <= reply_value(pos, a, depth));
        } else if b < a {
            assert(reply_value(pos, b, depth) < reply_value(pos, a, depth));
            assert(reply_value(pos, a, depth) <= reply_value(pos, b, depth));
        }
    }
}

/// Every value lies between the score of a human win and that of a machine
/// win, so a static score or a draw is never taken for a win.
pub proof fn lemma_value_bounds(pos: Position, last: int, depth: nat)
    requires
        pos.wf(),
    ensures
        bounded(min_value(pos, last, depth)),
        bounded(max_value(pos, last, depth)),
    decreases depth, 8int,
{
    lemma_score_bound(pos.cells, Player::Human);
    lemma_score_bound(pos.cells, Player::Machine);
    if depth > 0 {
        lemma_replies_bounds(pos, depth, 7);
    }
}

/// The best among the replies in the first `columns` columns is bounded as
/// every value is, unless none of these columns takes a piece.
pub proof fn lemma_replies_bounds(pos: Position, depth: nat, columns: int)
    requires
        pos.wf(),
        depth > 0,
        0 <= columns <= 7,
    ensures
        bounded(min_replies(pos, depth, columns)) || (min_replies(pos, depth, columns) == i32::MAX
            && forall|c: int| 0 <= c < columns ==> #[trigger] pos.remaining[c] == 0),
        bounded(max_replies(pos, depth, columns)) || (max_replies(pos, depth, columns) == i32::MIN
            && forall|c: int| 0 <= c < columns ==> #[trigger] pos.remaining[c] == 0),
    decreases depth, columns,
{
    if columns > 0 {
        lemma_replies_bounds(pos, depth, columns - 1);
        if pos.available(columns - 1) {
            lemma_play_keeps_wf(pos, columns - 1, Player::Human);
            lemma_play_keeps_wf(pos, columns - 1, Player::Machine);
            lemma_value_bounds(
                pos.play(columns - 1, Player::Human),
                pos.landing(columns - 1),
                (depth - 1) as nat,
            );
            lemma_value_bounds(
                pos.play(columns - 1, Player::Machine),
                pos.landing(columns - 1),
                (depth - 1) as nat,
            );
        }
    }
}

/// The least value among the replies can only fall, and the greatest only
/// rise, as more columns are taken in.
pub proof fn lemma_replies_monotone(pos: Position, depth: nat, columns: int, more: int)
    requires
        0 <= columns <= more,
    ensures
        min_replies(pos, depth, more) <= min_replies(pos, depth, columns),
        max_replies(pos, depth, more) >= max_replies(pos, depth, columns),
    decreases more - columns,
{
    if columns < more {
        lemma_replies_monotone(pos, depth, columns, more - 1);
    }
}

/// Where no column from `from` on takes a piece, none of them has a free row.
proof fn lemma_none_available(pos: Position, from: int)
    requires
        0 <= from <= 7,
        first_available(pos, from) == 7,
    ensures
        forall|c: int| from <= c < 7 ==> #[trigger] pos.remaining[c] == 0,
    decreases 7 - from,
{
    if from < 7 {
        lemma_none_available(pos, from + 1);
    }
}

/// What the leftmost moves lead to is bounded as every value is.
pub proof fn lemma_leftmost_bounds(pos: Position, last: int, depth: nat)
    requires
        pos.wf(),
    ensures
        bounded(leftmost_min(pos, last, depth)),
        bounded(leftmost_max(pos, last, depth)),
    decreases depth,
{
    lemma_value_bounds(pos, last, depth);
    if !is_leaf(pos, last, depth) {
        let column = first_available(pos, 0);
        if column == 7 {
            lemma_none_available(pos, 0);
        }
        lemma_first_available(pos, 0);
        lemma_play_keeps_wf(pos, column, Player::Human);
        lemma_play_keeps_wf(pos, column, Player::Machine);
        lemma_leftmost_bounds(
            pos.play(column, Player::Human),
            pos.landing(column),
            (depth - 1) as nat,
        );
        lemma_leftmost_bounds(
            pos.play(column, Player::Machine),
            pos.landing(column),
            (depth - 1) as nat,
        );
    }
}

/// The first column that takes a piece is a column from `from` on that takes
/// one, or 7.
proof fn lemma_first_available(pos: Position, from: int)
    requires
        0 <= from <= 7,
    ensures
        from <= first_available(pos, from) <= 7,
        first_available(pos, from) < 7 ==> pos.available(first_available(pos, from)),
    decreases 7 - from,
{
    if from < 7 && !pos.available(from) {
        lemma_first_available(pos, from + 1);
    }
}

/// After a move on a board without a line, win detection at the piece just
/// dropped decides the game: it closes a line exactly where somebody has four
/// in a line anywhere.
pub proof fn lemma_move_decides(pos: Position, last: int)
    requires
        pos.wf(),
        pos.follows_move(last),
    ensures
        wins_at(pos.cells, last) <==> !no_line(pos.cells),
{
    if wins_at(pos.cells, last) {
        lemma_found_is_line(pos.cells, last);
    } else {
        lemma_quiet_after_move(pos, last);
    }
}

/// Pruning does not change the result: with a window that is not empty,
/// what the pruned search returns is the minimax value where that value lies
/// inside the window, and else lies on the same side of the window as the
/// value, no further out.
pub proof fn lemma_pruning_is_sound(pos: Position, last: int, depth: nat, alpha: int, beta: int)
    requires
        pos.wf(),
        i32::MIN <= alpha < beta <= i32::MAX,
    ensures
        searched(
            min_value(pos, last, depth),
            pruned_min(pos, last, depth, alpha, beta),
            alpha,
            beta,
        ),
        searched(
            max_value(pos, last, depth),
            pruned_max(pos, last, depth, alpha, beta),
            alpha,
            beta,
        ),
    decreases depth, 8int,
{
    if !is_leaf(pos, last, depth) {
        lemma_min_scan_is_sound(pos, depth, alpha, beta, beta, 0, i32::MAX as int);
        lemma_max_scan_is_sound(pos, depth, alpha, alpha, beta, 0, i32::MIN as int);
    }
}

/// What holds of the scan of the human's replies from `column` on, where
/// `best` is the least value among the replies before it unless it reached
/// the upper end of the window, and is no more than that value.
#[verifier::rlimit(50)]
proof fn lemma_min_scan_is_sound(
    pos: Position,
    depth: nat,
    alpha: int,
    beta: int,
    lowered: int,
    column: int,
    best: int,
)
    requires
        pos.wf(),
        depth > 0,
        0 <= column <= 7,
        i32::MIN <= alpha < beta <= i32::MAX,
        lowered == if beta < best { beta } else { best },
        alpha < lowered,
        min_replies(pos, depth, column) >= best,
        best < beta ==> min_replies(pos, depth, column) == best,
    ensures
        searched(
            min_replies(pos, depth, 7),
            min_scan(pos, depth, alpha, lowered, column, best),
            alpha,
            beta,
        ),
    decreases depth, 7 - column,
{
    if column < 7 {
        if pos.available(column) {
            lemma_play_keeps_wf(pos, column, Player::Human);
            let next = pos.play(column, Player::Human);
            lemma_pruning_is_sound(next, pos.landing(column), (depth - 1) as nat, alpha, lowered);
            let reply = pruned_max(next, pos.landing(column), (depth - 1) as nat, alpha, lowered);
            if reply < best {
                let lower = if lowered < reply {
                    lowered
                } else {
                    reply
                };
                if alpha >= lower {
                    lemma_replies_monotone(pos, depth, column + 1, 7);
                } else {
                    lemma_min_scan_is_sound(pos, depth, alpha, beta, lower, column + 1, reply);
                }
            } else {
                lemma_min_scan_is_sound(pos, depth, alpha, beta, lowered, column + 1, best);
            }
        } else {
            lemma_min_scan_is_sound(pos, depth, alpha, beta, lowered, column + 1, best);
        }
    }
}

/// What holds of the scan of the machine's replies from `column` on, where
/// `best` is the greatest value among the replies before it unless it
/// reached the lower end of the window, and is no less than that value.
#[verifier::rlimit(50)]
proof fn lemma_max_scan_is_sound(
    pos: Position,
    depth: nat,
    alpha: int,
    raised: int,
    beta: int,
    column: int,
    best: int,
)
    requires
        pos.wf(),
        depth > 0,
        0 <= column <= 7,
        i32::MIN <= alpha < beta <= i32::MAX,
        raised == if alpha > best { alpha } else { best },
        raised < beta,
        max_replies(pos, depth, column) <= best,
        best > alpha ==> max_replies(pos, depth, column) == best,
    ensures
        searched(
            max_replies(pos, depth, 7),
            max_scan(pos, depth, raised, beta, column, best),
            alpha,
            beta,
        ),
    decreases depth, 7 - column,
{
    if column < 7 {
        if pos.available(column) {
            lemma_play_keeps_wf(pos, column, Player::Machine);
            let next = pos.play(column, Player::Machine);
            lemma_pruning_is_sound(next, pos.landing(column), (depth - 1) as nat, raised, beta);
            let reply = pruned_min(next, pos.landing(column), (depth - 1) as nat, raised, beta);
            if reply > best {
                let higher = if raised > reply {
                    raised
                } else {
                    reply
                };
                if higher >= beta {
                    lemma_replies_monotone(pos, depth, column + 1, 7);
                } else {
                    lemma_max_scan_is_sound(pos, depth, alpha, higher, beta, column + 1, reply);
                }
            } else {
                lemma_max_scan_is_sound(pos, depth, alpha, raised, beta, column + 1, best);
            }
        } else {
            lemma_max_scan_is_sound(pos, depth, alpha, raised, beta, column + 1, best);
        }
    }
}

/// With the widest window the pruned search returns the minimax value.
pub proof fn lemma_full_window(pos: Position, last: int, depth: nat)
    requires
        pos.wf(),
    ensures
        pruned_min(pos, last, depth, i32::MIN as int, i32::MAX as int) == min_value(
            pos,
            last,
            depth,
        ),
        pruned_max(pos, last, depth, i32::MIN as int, i32::MAX as int) == max_value(
            pos,
            last,
            depth,
        ),
{
    lemma_pruning_is_sound(pos, last, depth, i32::MIN as int, i32::MAX as int);
    lemma_value_bounds(pos, last, depth);
}

/// With an empty window the pruned search looks at the leftmost move of
/// each side only.
pub proof fn lemma_closed_window(pos: Position, last: int, depth: nat, alpha: int, beta: int)
    requires
        pos.wf(),
        alpha >= beta,
    ensures
        pruned_min(pos, last, depth, alpha, beta) == leftmost_min(pos, last, depth),
        pruned_max(pos, last, depth, alpha, beta) == leftmost_max(pos, last, depth),
    decreases depth, 8int,
{
    if !is_leaf(pos, last, depth) {
        lemma_closed_scan(pos, depth, alpha, beta, 0);
    }
}

/// With an empty window the scan ends with what the leftmost reply leads

/// to.
proof fn lemma_closed_scan(pos: Position, depth: nat, alpha: int, beta: int, column: int)
    requires
        pos.wf(),
        depth > 0,
        !pos.full(),
        alpha >= beta,
        0 <= column <= 7,
        first_available(pos, 0) == first_available(pos, column),
    ensures
        min_scan(pos, depth, alpha, beta, column, i32::MAX as int) == leftmost_max(
            pos.play(first_available(pos, 0), Player::Human),
            pos.landing(first_available(pos, 0)),
            (depth - 1) as nat,
        ),
        max_scan(pos, depth, alpha, beta, column, i32::MIN as int) == leftmost_min(
            pos.play(first_available(pos, 0), Player::Machine),
            pos.landing(first_available(pos, 0)),
            (depth - 1) as nat,
        ),
    decreases depth, 7 - column,
{
    if column >= 7 {
        lemma_none_available(pos, 0);
    } else if pos.available(column) {
        lemma_play_keeps_wf(pos, column, Player::Human);
        lemma_play_keeps_wf(pos, column, Player::Machine);
        let landing = pos.landing(column);
        lemma_closed_window(pos.play(column, Player::Human), landing, (depth - 1) as nat, alpha, beta);
        lemma_closed_window(
            pos.play(column, Player::Machine),
            landing,
            (depth - 1) as nat,
            alpha,
            beta,
        );
        lemma_leftmost_bounds(pos.play(column, Player::Human), landing, (depth - 1) as nat);
        lemma_leftmost_bounds(pos.play(column, Player::Machine), landing, (depth - 1) as nat);
    } else {
        lemma_closed_scan(pos, depth, alpha, beta, column + 1);
    }
}

/// A full board on which nobody has four in a line is a draw, whoever is to
/// move and whatever depth is left.
pub proof fn lemma_full_board_is_draw(pos: Position, last: int, depth: nat)
    requires
        pos.wf(),
        0 <= last < 42,
        pos.cells[last] != Player::Unset,
        pos.full(),
        no_line(pos.cells),
    ensures
        min_value(pos, last, depth) == OUTCOME_DRAW,
        max_value(pos, last, depth) == OUTCOME_DRAW,
{
    if wins_at(pos.cells, last) {
        lemma_found_is_line(pos.cells, last);
    }
}

impl ConnectFour {
    /// The human's turn: the value of the position after the machine played
    /// the piece in `last_cell_offset`, searched `remaining` moves ahead
    /// within the window from `alpha` to `beta`. The board is handed back as
    /// it was.
    pub fn min(&mut self, last_cell_offset: usize, remaining: u8, alpha: i32, beta: i32) -> (r: i32)
        requires
            old(self).wf(),
            old(self)@.follows_move(last_cell_offset as int),
        ensures
            *final(self) == *old(self),
            r == pruned_min(
                old(self)@,
                last_cell_offset as int,
                remaining as nat,
                alpha as int,
                beta as int,
            ),
            alpha < beta ==> searched(
                min_value(old(self)@, last_cell_offset as int, remaining as nat),
                r as int,
                alpha as int,
                beta as int,
            ),
            is_leaf(old(self)@, last_cell_offset as int, remaining as nat) || (alpha == i32::MIN
                && beta == i32::MAX) ==> r == min_value(
                old(self)@,
                last_cell_offset as int,
                remaining as nat,
            ),
            alpha >= beta ==> r == leftmost_min(
                old(self)@,
                last_cell_offset as int,
                remaining as nat,
            ),
        decreases remaining,
    {
        proof {
            let depth = remaining as nat;
            if alpha < beta {
                lemma_pruning_is_sound(
                    self@,
                    last_cell_offset as int,
                    depth,
                    alpha as int,
                    beta as int,
                );
            } else {
                lemma_closed_window(self@, last_cell_offset as int, depth, alpha as int, beta as int);
            }
            lemma_full_window(self@, last_cell_offset as int, depth);
        }
        if self.status(last_cell_offset) {
            return OUTCOME_MACHINE_WINS;
        }
        if self.empty == 0 {
            return OUTCOME_DRAW;
        }
        proof {
            lemma_quiet_after_move(self@, last_cell_offset as int);
        }
        if remaining == 0 {
            return self.score_position(Player::Human);
        }
        let ghost pos = self@;
        let ghost depth = remaining as nat;
        let mut min_v = i32::MAX;
        let mut local_beta = beta;
        let mut c: usize = 0;
        while c < BOARD_WIDTH
            invariant_except_break
                c <= 7,
                min_scan(pos, depth, alpha as int, local_beta as int, c as int, min_v as int) == min_scan(
                    pos,
                    depth,
                    alpha as int,
                    beta as int,
                    0,
                    i32::MAX as int,
                ),
            invariant
                *self == *old(self),
                self.wf(),
                pos == self@,
                no_line(pos.cells),
                remaining > 0,
                depth == remaining as nat,
            ensures
                min_v == min_scan(pos, depth, alpha as int, beta as int, 0, i32::MAX as int),
            decreases 7 - c,
        {
            if self.available(c) {
                let offset = self.piece_offset(c);
                proof {
                    lemma_play_keeps_wf(pos, c as int, Player::Human);
                }
                self.add(c, offset, Player::Human);
                proof {
                    assert(self@.cells.update(offset as int, Player::Unset) =~= pos.cells);
                }
                let m = self.max(offset, remaining - 1, alpha, local_beta);
                self.remove(c, offset);
                proof {
                    assert(self@ == pos);
                    assert(self.cells =~= old(self).cells);
                    assert(self.remaining =~= old(self).remaining);
                }
                if m < min_v {
                    min_v = m;
                    local_beta = if local_beta < min_v {
                        local_beta
                    } else {
                        min_v
                    };
                    if alpha >= local_beta {
                        break ;
                    }
                }
            }
            c += 1;
        }
        min_v
    }

    /// The machine's turn: the value of the position after the human played
    /// the piece in `last_cell_offset`, searched `remaining` moves ahead
    /// within the window from `alpha` to `beta`. The board is handed back as
    /// it was.
    pub fn max(&mut self, last_cell_offset: usize, remaining: u8, alpha: i32, beta: i32) -> (r: i32)
        requires
            old(self).wf(),
            old(self)@.follows_move(last_cell_offset as int),
        ensures
            *final(self) == *old(self),
            r == pruned_max(
                old(self)@,
                last_cell_offset as int,
                remaining as nat,
                alpha as int,
                beta as int,
            ),
            alpha < beta ==> searched(
                max_value(old(self)@, last_cell_offset as int, remaining as nat),
                r as int,
                alpha as int,
                beta as int,
            ),
            is_leaf(old(self)@, last_cell_offset as int, remaining as nat) || (alpha == i32::MIN
                && beta == i32::MAX) ==> r == max_value(
                old(self)@,
                last_cell_offset as int,
                remaining as nat,
            ),
            alpha >= beta ==> r == leftmost_max(
                old(self)@,
                last_cell_offset as int,
                remaining as nat,
            ),
        decreases remaining,
    {
        proof {
            let depth = remaining as nat;
            if alpha < beta {
                lemma_pruning_is_sound(
                    self@,
                    last_cell_offset as int,
                    depth,
                    alpha as int,
                    beta as int,
                );
            } else {
                lemma_closed_window(self@, last_cell_offset as int, depth, alpha as int, beta as int);
            }
            lemma_full_window(self@, last_cell_offset as int, depth);
        }
        if self.status(last_cell_offset) {
            return OUTCOME_HUMAN_WINS;
        }
        if self.empty == 0 {
            return OUTCOME_DRAW;
        }
        proof {
            lemma_quiet_after_move(self@, last_cell_offset as int);
        }
        if remaining == 0 {
            return self.score_position(Player::Machine);
        }
        let ghost pos = self@;
        let ghost depth = remaining as nat;
        let mut max_v = i32::MIN;
        let mut local_alpha = alpha;
        let mut c: usize = 0;
        while c < BOARD_WIDTH
            invariant_except_break
                c <= 7,
                max_scan(pos, depth, local_alpha as int, beta as int, c as int, max_v as int) == max_scan(
                    pos,
                    depth,
                    alpha as int,
                    beta as int,
                    0,
                    i32::MIN as int,
                ),
            invariant
                *self == *old(self),
                self.wf(),
                pos == self@,
                no_line(pos.cells),
                remaining > 0,
                depth == remaining as nat,
            ensures
                max_v == max_scan(pos, depth, alpha as int, beta as int, 0, i32::MIN as int),
            decreases 7 - c,
        {
            if self.available(c) {
                let offset = self.piece_offset(c);
                proof {
                    lemma_play_keeps_wf(pos, c as int, Player::Machine);
                }
                self.add(c, offset, Player::Machine);
                proof {
                    assert(self@.cells.update(offset as int, Player::Unset) =~= pos.cells);
                }
                let m = self.min(offset, remaining - 1, local_alpha, beta);
                self.remove(c, offset);
                proof {
                    assert(self@ == pos);
                    assert(self.cells =~= old(self).cells);
                    assert(self.remaining =~= old(self).remaining);
                }
                if m > max_v {
                    max_v = m;
                    local_alpha = if local_alpha > max_v {
                        local_alpha
                    } else {
                        max_v
                    };
                    if local_alpha >= beta {
                        break ;
                    }
                }
            }
            c += 1;
        }
        max_v
    }

    /// The machine's move on a board on which nobody has four in a line,
    /// searched `remaining` moves ahead after each candidate. The board is
    /// handed back as it was.
    #[verifier::rlimit(50)]
    pub fn max_top(&mut self, remaining: u8) -> (column: usize)
        requires
            old(self).wf(),
            no_line(old(self).cells@),
        ensures
            *final(self) == *old(self),
            is_best_reply(old(self)@, remaining as nat, column as int),
    {
        if remaining == 0 {
            return U_INVALID_INDEX;
        }
        let ghost pos = self@;
        let ghost depth = remaining as nat;
        let mut max_v = i32::MIN;
        let mut column = U_INVALID_INDEX;
        let mut c: usize = 0;
        while c < BOARD_WIDTH
            invariant
                c <= 7,
                *self == *old(self),
                self.wf(),
                pos == self@,
                no_line(pos.cells),
                depth == remaining as nat,
                is_best_among(pos, depth, c as int, column as int, max_v as int),
            decreases 7 - c,
        {
            if self.available(c) {
                let offset = self.piece_offset(c);
                proof {
                    lemma_play_keeps_wf(pos, c as int, Player::Machine);
                }
                self.add(c, offset, Player::Machine);
                proof {
                    assert(self@.cells.update(offset as int, Player::Unset) =~= pos.cells);
                }
                let points = self.min(offset, remaining, i32::MIN, i32::MAX);
                self.remove(c, offset);
                proof {
                    assert(self@ == pos);
                    assert(self.cells =~= old(self).cells);
                    assert(self.remaining =~= old(self).remaining);
                    assert(points == reply_value(pos, c as int, depth));
                    lemma_reply_bounded(pos, depth, c as int);
                    lemma_best_step(pos, depth, c as int, column as int, max_v as int);
                }
                if points > max_v {
                    max_v = points;
                    column = c;
                }
            } else {
                proof {
                    lemma_best_skip(pos, depth, c as int, column as int, max_v as int);
                }
            }
            c += 1;
        }
        proof {
            lemma_best_done(pos, depth, column as int, max_v as int);
        }
        column
    }

    /// The machine's move on a board on which nobody has four in a line: the
    /// middle column on the empty board, else the best reply found by
    /// searching as deep as `maximum_depth` and the free cells allow. The
    /// no-move index is returned where the board is full or the depth is 0.
    pub fn get_best_move(&mut self, maximum_depth: u8) -> (column: usize)
        requires
            old(self).wf(),
            no_line(old(self).cells@),
        ensures
            *final(self) == *old(self),
            is_best_move(old(self)@, maximum_depth as nat, column as int),
    {
        if self.empty == 42 {
            3
        } else {
            let depth = if self.empty < maximum_depth {
                self.empty
            } else {
                maximum_depth
            };
            self.max_top(depth)
        }
    }
}

} // verus!
