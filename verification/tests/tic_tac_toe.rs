use board_ai::common::players::{Players, INVALID_INDEX};
use board_ai::games::tic_tac_toe::{
    compare, AiBoard, BOARD_CELLS, OUTCOME_DRAW, OUTCOME_HUMAN_WINS, OUTCOME_MACHINE_WINS,
};

const U: Players = Players::Unset;
const P: Players = Players::Player;
const M: Players = Players::Machine;

fn plain_min(board: &mut AiBoard, depth: u8) -> i8 {
    if board.status() == M {
        return 20;
    }
    if depth == 0 || board.finished() {
        return 0;
    }
    let mut best = i8::MAX;
    for cell in 0..9 {
        if board.available(cell) {
            board.add(cell, P);
            best = best.min(plain_max(board, depth - 1));
            board.remove(cell);
        }
    }
    best
}

fn plain_max(board: &mut AiBoard, depth: u8) -> i8 {
    if board.status() == P {
        return -20;
    }
    if depth == 0 || board.finished() {
        return 0;
    }
    let mut best = i8::MIN;
    for cell in 0..9 {
        if board.available(cell) {
            board.add(cell, M);
            best = best.max(plain_min(board, depth - 1));
            board.remove(cell);
        }
    }
    best
}

#[test]
fn players_numbers() {
    assert_eq!(Players::try_from(0u8), Ok(Players::Unset));
    assert_eq!(Players::try_from(1u8), Ok(Players::Player));
    assert_eq!(Players::try_from(2u8), Ok(Players::Machine));
    assert_eq!(Players::try_from(3u8), Err("Players only accepts 0, 1, or 2!"));
    assert_eq!(INVALID_INDEX as u64, i64::MAX as u64);
    assert_eq!(BOARD_CELLS, 9);
}

#[test]
fn compare_three() {
    assert!(compare(P, P, P));
    assert!(compare(U, U, U));
    assert!(!compare(M, P, P));
    assert!(!compare(P, M, P));
    assert!(!compare(P, P, M));
}

#[test]
fn new_keeps_the_cells() {
    let cells = [P, M, U, U, M, U, U, U, P];
    assert_eq!(AiBoard::new(cells).cells, cells);
}

#[test]
fn status_names_the_owner_of_a_line() {
    let lines = [[0, 1, 2], [3, 4, 5], [6, 7, 8], [0, 3, 6], [1, 4, 7], [2, 5, 8], [0, 4, 8], [6, 4, 2]];
    for line in lines {
        for player in [P, M] {
            let mut cells = [U; 9];
            for i in line {
                cells[i] = player;
            }
            assert_eq!(AiBoard::new(cells).status(), player);
            for i in line {
                let mut broken = cells;
                broken[i] = U;
                assert_eq!(AiBoard::new(broken).status(), U);
            }
        }
    }
    assert_eq!(AiBoard::new([U; 9]).status(), U);
    assert_eq!(AiBoard::new([P, M, P, P, M, M, M, P, P]).status(), U);
    // Rows come before columns.
    assert_eq!(AiBoard::new([M, P, U, M, P, U, M, P, U]).status(), M);
    assert_eq!(AiBoard::new([P, P, P, M, M, M, U, U, U]).status(), P);
}

#[test]
fn add_and_remove_are_inverse() {
    let cells = [P, M, U, U, M, U, U, U, P];
    for cell in [2, 3, 5, 6, 7] {
        let mut board = AiBoard::new(cells);
        assert!(board.available(cell));
        board.add(cell, M);
        assert_eq!(board.cells[cell], M);
        assert!(!board.available(cell));
        board.remove(cell);
        assert_eq!(board.cells, cells);
    }
}

#[test]
fn finished_when_no_cell_is_empty() {
    assert!(AiBoard::new([P, M, P, P, M, M, M, P, P]).finished());
    assert!(!AiBoard::new([P, M, P, P, M, M, M, P, U]).finished());
    assert!(!AiBoard::new([U; 9]).finished());
}

#[test]
fn outcomes() {
    assert_eq!(OUTCOME_HUMAN_WINS, -20);
    assert_eq!(OUTCOME_MACHINE_WINS, 20);
    assert_eq!(OUTCOME_DRAW, 0);
    let mut board = AiBoard::new([M, M, M, P, P, U, U, U, U]);
    assert_eq!(board.min(4, i8::MIN, i8::MAX), 20);
    assert_eq!(board.min(0, 0, 0), 20);
    let mut board = AiBoard::new([P, P, P, M, M, U, U, U, U]);
    assert_eq!(board.max(4, i8::MIN, i8::MAX), -20);
    let mut board = AiBoard::new([P, P, U, M, M, U, U, U, U]);
    assert_eq!(board.max(0, i8::MIN, i8::MAX), 0);
    assert_eq!(board.max(1, i8::MIN, i8::MAX), 20);
    assert_eq!(board.min(1, i8::MIN, i8::MAX), -20);
}

#[test]
fn a_full_board_without_a_line_of_three_is_a_draw() {
    let cells = [P, M, P, P, M, M, M, P, P];
    let mut board = AiBoard::new(cells);
    for depth in [0u8, 1, 3, 9] {
        assert_eq!(board.min(depth, i8::MIN, i8::MAX), OUTCOME_DRAW);
        assert_eq!(board.max(depth, i8::MIN, i8::MAX), OUTCOME_DRAW);
    }
    assert_eq!(board.max_top(3), 255);
    assert_eq!(board.get_best_move(0), 255);
    assert_eq!(board.get_best_move(9), 255);
    assert_eq!(board.cells, cells);
}

#[test]
fn the_game_is_a_draw_from_the_start() {
    let mut board = AiBoard::new([U; 9]);
    assert_eq!(board.min(9, i8::MIN, i8::MAX), 0);
    assert_eq!(board.max(9, i8::MIN, i8::MAX), 0);
    assert_eq!(board.cells, [U; 9]);
}

#[test]
fn tic_tac_toe_pruning_does_not_change_the_value() {
    let starts = [
        [U; 9],
        [P, U, U, U, M, U, U, U, P],
        [P, P, U, M, U, U, U, U, U],
        [M, U, U, P, P, U, U, U, M],
        [P, M, U, U, M, U, U, U, P],
    ];
    for cells in starts {
        for depth in 0..7u8 {
            let mut board = AiBoard::new(cells);
            let mut plain = AiBoard::new(cells);
            assert_eq!(board.min(depth, i8::MIN, i8::MAX), plain_min(&mut plain, depth));
            assert_eq!(board.max(depth, i8::MIN, i8::MAX), plain_max(&mut plain, depth));
            assert_eq!(board.cells, cells);
        }
    }
}

#[test]
fn opening_move_is_the_middle_cell() {
    let mut board = AiBoard::new([U; 9]);
    assert!(board.untouched());
    assert_eq!(board.get_best_move(9), 4);
    assert_eq!(board.get_best_move(1), 4);
    assert_eq!(board.cells, [U; 9]);
    // Without the shortcut the search finds the first of nine equal moves.
    assert_eq!(board.max_top(9), 0);
}

#[test]
fn the_middle_cell_is_only_answered_on_the_empty_board() {
    let mut board = AiBoard::new([U, U, U, U, P, U, U, U, U]);
    assert!(!board.untouched());
    assert_eq!(board.get_best_move(9), 0);
    assert_eq!(board.get_best_move(8), 0);
}

#[test]
fn the_machine_completes_its_line() {
    let mut board = AiBoard::new([M, M, U, P, P, U, U, U, U]);
    assert_eq!(board.get_best_move(5), 2);
    let mut board = AiBoard::new([P, M, P, U, P, U, M, M, U]);
    assert_eq!(board.get_best_move(3), 8);
    // The first move that wins in the end is taken, not the fastest win.
    let mut board = AiBoard::new([P, P, U, U, U, U, M, M, U]);
    assert_eq!(board.get_best_move(5), 2);
}

#[test]
fn the_machine_blocks_a_line() {
    let mut board = AiBoard::new([M, U, U, P, P, U, U, U, M]);
    assert_eq!(board.get_best_move(5), 5);
    let mut board = AiBoard::new([P, P, U, M, U, U, U, U, U]);
    assert_eq!(board.get_best_move(6), 2);
    assert_eq!(board.cells, [P, P, U, M, U, U, U, U, U]);
}

#[test]
fn best_replies() {
    let mut board = AiBoard::new([P, U, U, U, U, U, U, U, U]);
    assert_eq!(board.get_best_move(8), 4);
    let mut board = AiBoard::new([U, U, U, U, P, U, U, U, U]);
    assert_eq!(board.get_best_move(8), 0);
    let mut board = AiBoard::new([P, U, U, U, M, U, U, U, P]);
    assert_eq!(board.max_top(6), 1);
    let mut board = AiBoard::new([P, M, P, P, M, M, M, P, U]);
    assert_eq!(board.get_best_move(1), 8);
    let mut board = AiBoard::new([P, M, P, U, M, M, M, P, U]);
    assert_eq!(board.get_best_move(2), 3);
    assert_eq!(board.max_top(0), 255);
}
