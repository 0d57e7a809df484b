use board_ai::games::connect_four::{AiRemaining, ConnectFour};
use board_ai::games::host::InputError;
use board_ai::{many_eq, Player, INVALID_INDEX, U_INVALID_INDEX};

fn cells_of(human: &[usize], machine: &[usize]) -> [Player; 42] {
    let mut cells = [Player::Unset; 42];
    for &i in human {
        cells[i] = Player::Human;
    }
    for &i in machine {
        cells[i] = Player::Machine;
    }
    cells
}

fn create_cells(human: &[usize]) -> [Player; 42] {
    cells_of(human, &[])
}

#[test]
fn test_compare_same() {
    assert!(many_eq(Player::Human, Player::Human, Player::Human, Player::Human));
}

#[test]
fn test_compare_one_a_different() {
    assert!(!many_eq(Player::Machine, Player::Human, Player::Human, Player::Human));
}

#[test]
fn test_compare_one_b_different() {
    assert!(!many_eq(Player::Human, Player::Machine, Player::Human, Player::Human));
}

#[test]
fn test_compare_one_c_different() {
    assert!(!many_eq(Player::Human, Player::Human, Player::Machine, Player::Human));
}

#[test]
fn test_compare_one_d_different() {
    assert!(!many_eq(Player::Human, Player::Human, Player::Human, Player::Machine));
}

#[test]
fn test_empty() {
    let cells = create_cells(&[]);
    let remaining: AiRemaining = [6; 7];
    let board = ConnectFour::new(cells);

    assert_eq!(board.cells, cells);
    assert_eq!(board.remaining, remaining);
    assert_eq!(board.empty, 42);
}

#[test]
fn test_row_filled() {
    let cells = create_cells(&[35, 36, 37, 38, 39, 40, 41]);
    let remaining: AiRemaining = [5; 7];
    let board = ConnectFour::new(cells);

    assert_eq!(board.cells, cells);
    assert_eq!(board.remaining, remaining);
    assert_eq!(board.empty, 35);
}

#[test]
fn test_column_filled() {
    let cells = create_cells(&[0, 7, 14, 21, 28, 35]);
    let remaining: AiRemaining = [0, 6, 6, 6, 6, 6, 6];
    let board = ConnectFour::new(cells);

    assert_eq!(board.cells, cells);
    assert_eq!(board.remaining, remaining);
    assert_eq!(board.empty, 36);
}

#[test]
fn new_counts_only_the_cells_above_the_topmost_piece() {
    let board = ConnectFour::new(create_cells(&[0, 2, 3, 4, 22]));
    assert_eq!(board.remaining, [0, 3, 0, 0, 0, 6, 6]);
    assert_eq!(board.empty, 15);
}

#[test]
fn test_0() {
    let board = ConnectFour::new(create_cells(&[0, 7, 14, 21, 28, 35]));
    assert!(!board.available(0));
}

#[test]
fn available_while_the_column_has_room() {
    let filled: [&[usize]; 6] =
        [&[7, 14, 21, 28, 35], &[14, 21, 28, 35], &[21, 28, 35], &[28, 35], &[35], &[]];
    for human in filled {
        let board = ConnectFour::new(create_cells(human));
        assert!(board.available(0));
        assert!(board.available(6));
    }
}

#[test]
fn piece_offset_is_the_lowest_free_cell() {
    let cases: [(&[usize], usize); 6] = [
        (&[7, 14, 21, 28, 35], 0),
        (&[14, 21, 28, 35], 7),
        (&[21, 28, 35], 14),
        (&[28, 35], 21),
        (&[35], 28),
        (&[], 35),
    ];
    for (human, offset) in cases {
        let board = ConnectFour::new(create_cells(human));
        assert_eq!(board.piece_offset(0), offset);
    }
    let board = ConnectFour::new(create_cells(&[40]));
    assert_eq!(board.piece_offset(5), 33);
    assert_eq!(board.piece_offset(6), 41);
}

#[test]
fn add_writes_the_cell_and_takes_a_row() {
    let cases: [(&[usize], usize); 6] = [
        (&[7, 14, 21, 28, 35], 0),
        (&[14, 21, 28, 35], 7),
        (&[21, 28, 35], 14),
        (&[28, 35], 21),
        (&[35], 28),
        (&[], 35),
    ];
    for (human, offset) in cases {
        let mut board = ConnectFour::new(create_cells(human));
        let before = (board.remaining, board.empty);
        board.add(0, offset, Player::Human);

        assert_eq!(board.cells[offset], Player::Human);
        assert_eq!(board.remaining[0], before.0[0] - 1);
        assert_eq!(board.remaining[1..], before.0[1..]);
        assert_eq!(board.empty, before.1 - 1);
        let changed = (0..42).filter(|&i| board.cells[i] != create_cells(human)[i]).count();
        assert_eq!(changed, 1);
    }
}

#[test]
fn remove_empties_the_cell_and_gives_a_row_back() {
    let cases: [(&[usize], usize); 6] = [
        (&[0, 7, 14, 21, 28, 35], 0),
        (&[7, 14, 21, 28, 35], 7),
        (&[14, 21, 28, 35], 14),
        (&[21, 28, 35], 21),
        (&[28, 35], 28),
        (&[35], 35),
    ];
    for (human, offset) in cases {
        let mut board = ConnectFour::new(create_cells(human));
        let before = (board.remaining, board.empty);
        board.remove(0, offset);

        assert_eq!(board.cells[offset], Player::Unset);
        assert_eq!(board.remaining[0], before.0[0] + 1);
        assert_eq!(board.empty, before.1 + 1);
    }
}

#[test]
fn remove_after_add_restores_the_board() {
    let start = cells_of(&[35, 36, 29, 38], &[37, 30, 31, 41]);
    for column in 0..7 {
        for player in [Player::Human, Player::Machine] {
            let mut board = ConnectFour::new(start);
            let offset = board.piece_offset(column);
            board.add(column, offset, player);
            assert_ne!(board.cells, start);
            board.remove(column, offset);
            assert_eq!(board.cells, start);
            assert_eq!(board.remaining, ConnectFour::new(start).remaining);
            assert_eq!(board.empty, 34);
        }
    }
}

#[test]
fn valid_tells_a_well_formed_board() {
    let mut board = ConnectFour::new(cells_of(&[35, 36], &[28]));
    assert!(board.valid());
    board.empty = 40;
    assert!(!board.valid());
    board.empty = 39;
    board.remaining[3] = 7;
    assert!(!board.valid());
    board.remaining[3] = 6;
    board.remaining[0] = 5;
    board.empty = 40;
    assert!(!board.valid());
    board.remaining[0] = 3;
    board.empty = 38;
    assert!(board.valid());
}

#[test]
fn js_new_without_values_is_the_empty_board() {
    let board = ConnectFour::js_new(None).unwrap();
    assert_eq!(board.cells, [Player::Unset; 42]);
    assert_eq!(board.remaining, [6; 7]);
    assert_eq!(board.empty, 42);
    assert!(!board.js_finished());
}

#[test]
fn js_new_decodes_the_numbers() {
    let mut values = vec![0u8; 42];
    values[35] = 1;
    values[36] = 2;
    values[28] = 2;
    let board = ConnectFour::js_new(Some(values.clone())).unwrap();
    assert_eq!(board.cells, cells_of(&[35], &[36, 28]));
    assert_eq!(board.remaining, [4, 5, 6, 6, 6, 6, 6]);
    assert_eq!(board.empty, 39);
    assert_eq!(board.js_get_board(), values);
}

#[test]
fn js_new_turns_a_wrong_length_down() {
    assert_eq!(ConnectFour::js_new(Some(vec![0u8; 41])).err(), Some(InputError::Length));
    assert_eq!(ConnectFour::js_new(Some(vec![0u8; 43])).err(), Some(InputError::Length));
    assert_eq!(ConnectFour::js_new(Some(vec![])).err(), Some(InputError::Length));
    assert_eq!(ConnectFour::js_new(Some(vec![3u8; 9])).err(), Some(InputError::Length));
}

#[test]
fn js_new_turns_a_wrong_number_down() {
    let mut values = vec![0u8; 42];
    values[41] = 3;
    assert_eq!(ConnectFour::js_new(Some(values)).err(), Some(InputError::Cell));
    let mut values = vec![1u8; 42];
    values[0] = 255;
    assert_eq!(ConnectFour::js_new(Some(values)).err(), Some(InputError::Cell));
}

#[test]
fn js_available_checks_the_column() {
    let board = ConnectFour::new(create_cells(&[0, 7, 14, 21, 28, 35]));
    assert_eq!(board.js_available(0), Ok(false));
    assert_eq!(board.js_available(1), Ok(true));
    assert_eq!(board.js_available(6), Ok(true));
    assert_eq!(board.js_available(-1), Err(InputError::Negative));
    assert_eq!(board.js_available(7), Err(InputError::TooLarge));
    assert_eq!(board.js_available(i32::MAX), Err(InputError::TooLarge));
    assert_eq!(board.js_available(i32::MIN), Err(InputError::Negative));
}

#[test]
fn js_add_drops_the_piece_and_reports_a_win() {
    let mut board = ConnectFour::js_new(None).unwrap();
    assert_eq!(board.js_add(0, Player::Human), Ok(false));
    assert_eq!(board.js_add(1, Player::Human), Ok(false));
    assert_eq!(board.js_add(1, Player::Machine), Ok(false));
    assert_eq!(board.js_add(2, Player::Human), Ok(false));
    assert_eq!(board.cells, cells_of(&[35, 36, 37], &[29]));
    assert_eq!(board.remaining, [5, 4, 5, 6, 6, 6, 6]);
    assert_eq!(board.empty, 38);
    assert_eq!(board.js_add(3, Player::Human), Ok(true));
    assert_eq!(board.cells[38], Player::Human);
    assert_eq!(board.empty, 37);
}

#[test]
fn js_add_turns_bad_moves_down_and_keeps_the_board() {
    let start = create_cells(&[0, 7, 14, 21, 28, 35]);
    let mut board = ConnectFour::new(start);
    assert_eq!(board.js_add(-1, Player::Human), Err(InputError::Negative));
    assert_eq!(board.js_add(7, Player::Human), Err(InputError::TooLarge));
    assert_eq!(board.js_add(0, Player::Human), Err(InputError::ColumnFull));
    assert_eq!(board.js_add(0, Player::Unset), Err(InputError::ColumnFull));
    assert_eq!(board.js_add(1, Player::Unset), Err(InputError::NoPlayer));
    assert_eq!(board.cells, start);
    assert_eq!(board.remaining, [0, 6, 6, 6, 6, 6, 6]);
    assert_eq!(board.empty, 36);
}

#[test]
fn js_finished_on_a_full_board() {
    let board = ConnectFour::js_new(Some(vec![1u8; 42])).unwrap();
    assert!(board.js_finished());
    let mut values = vec![1u8; 42];
    values[0] = 0;
    assert!(!ConnectFour::js_new(Some(values)).unwrap().js_finished());
}

#[test]
fn error_messages() {
    assert_eq!(InputError::Length.message(), "data must have exactly 42 numbers");
    assert_eq!(InputError::Cell.message(), "Player only accepts 0, 1, or 2!");
    assert_eq!(InputError::Negative.message(), "column must be a positive number");
    assert_eq!(InputError::TooLarge.message(), "column must be lower than 7");
    assert_eq!(InputError::ColumnFull.message(), "The assertion [self.remaining[c] > 0] failed");
    assert_eq!(InputError::NoPlayer.message(), "player must be 1 or 2");
    assert_eq!(InputError::Depth.message(), "depth must lie between 0 and 255");
    assert_eq!(InputError::Decided.message(), "the game is already decided");
}

#[test]
fn player_numbers() {
    assert_eq!(Player::try_from(0u8), Ok(Player::Unset));
    assert_eq!(Player::try_from(1u8), Ok(Player::Human));
    assert_eq!(Player::try_from(2u8), Ok(Player::Machine));
    assert_eq!(Player::try_from(3u8), Err("Player only accepts 0, 1, or 2!"));
    assert_eq!(Player::try_from(255u8), Err("Player only accepts 0, 1, or 2!"));
    assert_eq!(i8::from(Player::Unset), 0);
    assert_eq!(i8::from(Player::Human), 1);
    assert_eq!(i8::from(Player::Machine), 2);
    assert_eq!(Player::Unset.to_u8(), 0);
    assert_eq!(Player::Human.to_u8(), 1);
    assert_eq!(Player::Machine.to_u8(), 2);
    assert_eq!(U_INVALID_INDEX, 255);
    assert_eq!(INVALID_INDEX, 255);
}
