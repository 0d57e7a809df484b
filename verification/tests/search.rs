use board_ai::games::connect_four::{
    ConnectFour, OUTCOME_DRAW, OUTCOME_HUMAN_WINS, OUTCOME_MACHINE_WINS,
};
use board_ai::games::host::InputError;
use board_ai::{Player, U_INVALID_INDEX};

fn cells_of(human: &[usize], machine: &[usize]) -> [Player; 42] {
    let mut cells = [Player::Unset; 42];
    for &i in human {
        cells[i] = Player::Human;
    }
    for &i in machine {
        cells[i] = Player::Machine;
    }
    cells
}

/// A full board without a line of four.
fn drawn_cells() -> [Player; 42] {
    let numbers: [u8; 42] = [
        2, 1, 1, 2, 2, 2, 1, //
        1, 2, 2, 1, 1, 1, 2, //
        2, 2, 2, 1, 2, 1, 2, //
        1, 1, 2, 1, 2, 2, 2, //
        1, 2, 1, 2, 1, 1, 1, //
        1, 1, 2, 2, 1, 2, 1,
    ];
    let mut cells = [Player::Unset; 42];
    for i in 0..42 {
        cells[i] = Player::try_from(numbers[i]).unwrap();
    }
    cells
}

/// Minimax without pruning, written with the board's own moves.
fn plain_min(board: &mut ConnectFour, last: usize, depth: u8) -> i32 {
    if board.status(last) {
        return OUTCOME_MACHINE_WINS;
    }
    if board.js_finished() {
        return OUTCOME_DRAW;
    }
    if depth == 0 {
        return board.score_position(Player::Human);
    }
    let mut best = i32::MAX;
    for c in 0..7 {
        if board.available(c) {
            let offset = board.piece_offset(c);
            board.add(c, offset, Player::Human);
            let v = plain_max(board, offset, depth - 1);
            board.remove(c, offset);
            best = best.min(v);
        }
    }
    best
}

fn plain_max(board: &mut ConnectFour, last: usize, depth: u8) -> i32 {
    if board.status(last) {
        return OUTCOME_HUMAN_WINS;
    }
    if board.js_finished() {
        return OUTCOME_DRAW;
    }
    if depth == 0 {
        return board.score_position(Player::Machine);
    }
    let mut best = i32::MIN;
    for c in 0..7 {
        if board.available(c) {
            let offset = board.piece_offset(c);
            board.add(c, offset, Player::Machine);
            let v = plain_min(board, offset, depth - 1);
            board.remove(c, offset);
            best = best.max(v);
        }
    }
    best
}

fn plain_best(board: &mut ConnectFour, depth: u8) -> usize {
    let mut best = i32::MIN;
    let mut column = U_INVALID_INDEX;
    if depth == 0 {
        return column;
    }
    for c in 0..7 {
        if board.available(c) {
            let offset = board.piece_offset(c);
            board.add(c, offset, Player::Machine);
            let v = plain_min(board, offset, depth);
            board.remove(c, offset);
            if v > best {
                best = v;
                column = c;
            }
        }
    }
    column
}

#[test]
fn min_test_machine_wins() {
    let mut board = ConnectFour::new(cells_of(&[0, 1, 2, 3], &[]));
    assert_eq!(board.min(0, 42, 0, 0), OUTCOME_MACHINE_WINS);
    assert_eq!(OUTCOME_MACHINE_WINS, 999_999_999);
}

#[test]
fn min_test_draw() {
    let mut board = ConnectFour::new(cells_of(&[0], &[]));
    assert_eq!(board.min(0, 0, 0, 0), 0);
}

#[test]
fn max_test_human_wins() {
    let mut board = ConnectFour::new(cells_of(&[0, 1, 2, 3], &[]));
    assert_eq!(board.max(0, 42, 0, 0), OUTCOME_HUMAN_WINS);
    assert_eq!(OUTCOME_HUMAN_WINS, -999_999_999);
}

#[test]
fn min_values_by_depth() {
    let start = cells_of(&[35, 36], &[41, 34, 28]);
    let expected = [0, -100, 0, -30];
    for depth in 0..4u8 {
        let mut board = ConnectFour::new(start);
        assert_eq!(board.min(28, depth, i32::MIN, i32::MAX), expected[depth as usize]);
        assert_eq!(board.cells, start);
        assert_eq!(board.remaining, [4, 5, 6, 6, 6, 6, 4]);
        assert_eq!(board.empty, 37);
    }
}

#[test]
fn max_values_by_depth() {
    let start = cells_of(&[35, 36, 29], &[41, 34, 28]);
    let expected = [-20, 10, -30, 30];
    for depth in 0..4u8 {
        let mut board = ConnectFour::new(start);
        assert_eq!(board.max(29, depth, i32::MIN, i32::MAX), expected[depth as usize]);
        assert_eq!(board.cells, start);
        assert_eq!(board.empty, 36);
    }
}

#[test]
fn pruning_does_not_change_the_value() {
    let starts: [([Player; 42], usize, bool); 4] = [
        (cells_of(&[35, 36], &[41, 34, 28]), 28, true),
        (cells_of(&[35, 36, 29], &[41, 34, 28]), 29, false),
        (cells_of(&[38, 31, 37], &[39, 32, 24]), 24, true),
        (cells_of(&[38, 31, 37, 36], &[39, 32, 24]), 36, false),
    ];
    for (cells, last, human_to_move) in starts {
        for depth in 0..5u8 {
            let mut board = ConnectFour::new(cells);
            let mut plain = ConnectFour::new(cells);
            if human_to_move {
                assert_eq!(
                    board.min(last, depth, i32::MIN, i32::MAX),
                    plain_min(&mut plain, last, depth)
                );
            } else {
                assert_eq!(
                    board.max(last, depth, i32::MIN, i32::MAX),
                    plain_max(&mut plain, last, depth)
                );
            }
            assert_eq!(board.cells, cells);
        }
    }
}

#[test]
fn pruning_does_not_change_the_move() {
    let starts = [
        cells_of(&[35, 36], &[41, 34]),
        cells_of(&[38, 31], &[37]),
        cells_of(&[38, 31, 37], &[39, 32, 24]),
        cells_of(&[35, 36, 37], &[]),
    ];
    for cells in starts {
        for depth in 0..5u8 {
            let mut board = ConnectFour::new(cells);
            let mut plain = ConnectFour::new(cells);
            assert_eq!(board.max_top(depth), plain_best(&mut plain, depth));
            assert_eq!(board.cells, cells);
        }
    }
}

#[test]
fn a_narrow_window_bounds_the_value() {
    let cells = cells_of(&[35, 36], &[41, 34, 28]);
    // The value at depth 3 is -30.
    let mut board = ConnectFour::new(cells);
    assert_eq!(board.min(28, 3, -100, 100), -30);
    let low = board.min(28, 3, 0, 100);
    assert!(low <= 0 && -30 <= low);
    let high = board.min(28, 3, -1000, -100);
    assert!(high >= -100 && -30 >= high);
    assert_eq!(board.cells, cells);
}

#[test]
fn a_closed_window_follows_the_leftmost_moves() {
    let cells = cells_of(&[35, 28], &[36, 37, 41]);
    let mut board = ConnectFour::new(cells);
    assert_eq!(board.min(41, 3, 0, 0), 10);
    assert_eq!(board.min(41, 3, 7, -7), 10);
    assert_eq!(board.min(41, 3, i32::MIN, i32::MAX), -27);
    assert_eq!(board.min(41, 1, 0, 0), -100);
    assert_eq!(board.cells, cells);
    let cells = cells_of(&[35, 28, 21], &[36, 37]);
    let mut board = ConnectFour::new(cells);
    assert_eq!(board.max(21, 1, 5, 5), -10);
    assert_eq!(board.max(21, 1, i32::MIN, i32::MAX), 100);
    assert_eq!(board.max(21, 2, 5, 5), 10);
    assert_eq!(board.max(21, 4, i32::MIN, i32::MAX), -7);
    assert_eq!(board.cells, cells);
}

#[test]
fn max_top_test_stop_horizontal_winning_move() {
    let mut board = ConnectFour::new(cells_of(&[35, 36, 37], &[]));
    assert_eq!(board.max_top(5), 3);
}

#[test]
fn max_top_test_stop_vertical_winning_move() {
    let mut board = ConnectFour::new(cells_of(&[21, 28, 35], &[]));
    assert_eq!(board.max_top(5), 0);
}

#[test]
fn max_top_test_stop_tl_br_winning_move() {
    let mut board = ConnectFour::new(cells_of(&[15, 23, 31], &[]));
    assert_eq!(board.max_top(5), 4);
}

#[test]
fn max_top_test_stop_bl_tr_winning_move() {
    let mut board = ConnectFour::new(cells_of(&[18, 24, 30], &[]));
    assert_eq!(board.max_top(5), 1);
}

#[test]
fn max_top_without_depth_has_no_move() {
    let mut board = ConnectFour::new(cells_of(&[35], &[]));
    assert_eq!(board.max_top(0), U_INVALID_INDEX);
    assert_eq!(board.max_top(0), 255);
}

#[test]
fn max_top_by_depth() {
    let cells = cells_of(&[35, 36], &[41, 34]);
    let expected = [3, 6, 3];
    for depth in 1..4u8 {
        let mut board = ConnectFour::new(cells);
        assert_eq!(board.max_top(depth), expected[depth as usize - 1]);
    }
}

#[test]
fn opening_move_is_the_middle_column() {
    let mut board = ConnectFour::js_new(None).unwrap();
    assert_eq!(board.get_best_move(5), 3);
    assert_eq!(board.get_best_move(0), 3);
    assert_eq!(board.js_get_best_move(None), Ok(3));
    assert_eq!(board.js_get_best_move(Some(200)), Ok(3));
    assert_eq!(board.cells, [Player::Unset; 42]);
}

#[test]
fn the_machine_takes_its_win() {
    let cells = cells_of(&[28, 29, 30], &[35, 36, 37]);
    let mut board = ConnectFour::new(cells);
    assert_eq!(board.get_best_move(5), 3);
    assert_eq!(board.get_best_move(1), 3);
    assert_eq!(board.js_get_best_move(None), Ok(3));
    let mut board = ConnectFour::new(cells_of(&[], &[35, 36, 37]));
    assert_eq!(board.get_best_move(5), 3);
    assert_eq!(board.cells, cells_of(&[], &[35, 36, 37]));
}

#[test]
fn the_machine_blocks_a_threat() {
    let mut board = ConnectFour::new(cells_of(&[35, 36, 37], &[28, 29]));
    assert_eq!(board.get_best_move(5), 3);
    assert_eq!(board.get_best_move(2), 3);
    let mut board = ConnectFour::new(cells_of(&[41, 34, 27], &[40, 33]));
    assert_eq!(board.get_best_move(4), 6);
}

#[test]
fn get_best_move_without_budget_or_room_has_no_move() {
    let mut board = ConnectFour::new(cells_of(&[35], &[]));
    assert_eq!(board.get_best_move(0), U_INVALID_INDEX);
    let mut board = ConnectFour::new(drawn_cells());
    assert_eq!(board.get_best_move(5), U_INVALID_INDEX);
    assert_eq!(board.js_get_best_move(None), Ok(255));
}

#[test]
fn get_best_move_takes_the_last_cell() {
    let mut cells = drawn_cells();
    cells[3] = Player::Unset;
    let mut board = ConnectFour::new(cells);
    assert_eq!(board.empty, 1);
    assert_eq!(board.get_best_move(5), 3);
    assert_eq!(board.get_best_move(1), 3);
    cells[0] = Player::Unset;
    let mut board = ConnectFour::new(cells);
    assert_eq!(board.get_best_move(5), 3);
    assert_eq!(board.cells, cells);
}

#[test]
fn a_full_board_without_a_line_is_a_draw() {
    let cells = drawn_cells();
    let mut board = ConnectFour::new(cells);
    assert!(!board.decided());
    assert!(board.js_finished());
    for last in 0..7 {
        for depth in [0u8, 1, 3, 42] {
            assert_eq!(board.min(last, depth, i32::MIN, i32::MAX), OUTCOME_DRAW);
            assert_eq!(board.max(last, depth, i32::MIN, i32::MAX), OUTCOME_DRAW);
            assert_eq!(board.min(last, depth, 0, 0), 0);
        }
    }
    assert_eq!(board.cells, cells);
}

#[test]
fn js_get_best_move_checks_the_depth_and_the_board() {
    let mut board = ConnectFour::new(cells_of(&[35, 36, 37], &[]));
    assert_eq!(board.js_get_best_move(Some(-1)), Err(InputError::Depth));
    assert_eq!(board.js_get_best_move(Some(256)), Err(InputError::Depth));
    assert_eq!(board.js_get_best_move(Some(0)), Ok(255));
    assert_eq!(board.js_get_best_move(Some(5)), Ok(3));
    assert_eq!(board.js_get_best_move(None), Ok(3));
    let mut board = ConnectFour::new(cells_of(&[35, 36, 37, 38], &[28, 29, 30]));
    assert_eq!(board.js_get_best_move(None), Err(InputError::Decided));
    assert_eq!(board.js_get_best_move(Some(-1)), Err(InputError::Depth));
}
