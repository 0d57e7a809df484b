use board_ai::games::connect_four::ConnectFour;
use board_ai::games::lines::{check_offsets, offsets_in_range, try_check_offsets};
use board_ai::Player;

fn create_cells(human: &[usize]) -> [Player; 42] {
    let mut cells = [Player::Unset; 42];
    for &i in human {
        cells[i] = Player::Human;
    }
    cells
}

#[test]
fn test_fails() {
    let board = ConnectFour::new(create_cells(&[0, 2, 3, 4]));

    assert!(!check_offsets(&board.cells, 0, &[0, 1, 2, 3]));
}

#[test]
fn connect_four_test_fails() {
    let board = ConnectFour::new(create_cells(&[0, 2, 3, 4]));

    assert!(!check_offsets(&board.cells, 0, &[0, 1, 2, 3]));
    assert!(!check_offsets(&board.cells, 2, &[-1, 0, 1, 2, 3]));
    assert!(!check_offsets(&board.cells, 2, &[-2, -1, 0, 1, 2, 3]));
    assert!(!check_offsets(&board.cells, 3, &[-3, -2, -1, 0, 1, 2, 3]));
}

#[test]
fn check_offsets_finds_four_equal_neighbours() {
    let board = ConnectFour::new(create_cells(&[0, 1, 2, 3, 4]));
    assert!(check_offsets(&board.cells, 0, &[0, 1, 2, 3]));
    assert!(check_offsets(&board.cells, 1, &[-1, 0, 1, 2]));
    assert!(check_offsets(&board.cells, 2, &[-2, -1, 0, 1]));
    assert!(check_offsets(&board.cells, 3, &[-3, -2, -1, 0]));
    assert!(check_offsets(&board.cells, 2, &[-2, -1, 0, 1, 2, 3]));
    assert!(check_offsets(&board.cells, 3, &[-3, -2, -1, 0, 1, 2]));
    assert!(check_offsets(&board.cells, 4, &[-3, -2, -1, 0, 1, 2]));
    assert!(check_offsets(&board.cells, 3, &[-3, -2, -1, 0, 1, 2, 3]));

    let board = ConnectFour::new(create_cells(&[0, 1, 2, 3]));
    assert!(check_offsets(&board.cells, 1, &[-1, 0, 1, 2, 3]));
    assert!(check_offsets(&board.cells, 2, &[-2, -1, 0, 1, 2]));
    assert!(check_offsets(&board.cells, 3, &[-3, -2, -1, 0, 1]));
}

#[test]
fn check_offsets_needs_four_neighbours() {
    let board = ConnectFour::new(create_cells(&[0, 1, 2, 3]));
    assert!(!check_offsets(&board.cells, 1, &[-1, 0, 1]));
    assert!(!check_offsets(&board.cells, 1, &[]));
}

#[test]
fn check_offsets_tells_the_players_apart() {
    let mut cells = create_cells(&[0, 1, 2]);
    cells[3] = Player::Machine;
    assert!(!check_offsets(&cells, 0, &[0, 1, 2, 3]));
    cells[3] = Player::Human;
    assert!(check_offsets(&cells, 0, &[0, 1, 2, 3]));
}

#[test]
fn offsets_in_range_checks_both_ends() {
    assert!(offsets_in_range(0, &[0, 1, 2, 3]));
    assert!(offsets_in_range(38, &[0, 1, 2, 3]));
    assert!(offsets_in_range(3, &[-3, -2, -1, 0, 1, 2, 3]));
    assert!(offsets_in_range(41, &[-41]));
    assert!(offsets_in_range(0, &[41]));
    assert!(offsets_in_range(5, &[]));
    assert!(!offsets_in_range(0, &[-1, 0, 1, 2]));
    assert!(!offsets_in_range(39, &[0, 1, 2, 3]));
    assert!(!offsets_in_range(39, &[-1, 0, 1, 2, 3]));
    assert!(!offsets_in_range(0, &[-3, -2, -1, 0, 1, 2, 3]));
    assert!(!offsets_in_range(0, &[42]));
    assert!(!offsets_in_range(41, &[-42]));
    assert!(!offsets_in_range(20, &[3, -21, 1]));
    assert!(!offsets_in_range(20, &[3, 22, 1]));
    assert!(!offsets_in_range(0, &[isize::MAX]));
    assert!(!offsets_in_range(41, &[isize::MIN, isize::MAX]));
}

#[test]
fn try_check_offsets_turns_bad_input_down() {
    let cells = create_cells(&[0, 2, 3, 4]);
    assert_eq!(try_check_offsets(&cells, 0, &[-1, 0, 1, 2]), None);
    assert_eq!(try_check_offsets(&cells, 0, &[-3, -2, -1, 0, 1, 2, 3]), None);
    assert_eq!(try_check_offsets(&cells, 1, &[-1, 0, 1, 2]), None);
    assert_eq!(try_check_offsets(&cells, 42, &[0]), None);
    assert_eq!(try_check_offsets(&cells, 0, &[0, 1, 2, 3]), Some(false));
    assert_eq!(try_check_offsets(&cells, 2, &[0, 1, 2, 3]), Some(false));
    let cells = create_cells(&[38, 39, 40, 41]);
    assert_eq!(try_check_offsets(&cells, 39, &[0, 1, 2, 3]), None);
    assert_eq!(try_check_offsets(&cells, 39, &[-1, 0, 1, 2]), Some(true));
    assert_eq!(try_check_offsets(&cells, 38, &[0, 1, 2, 3]), Some(true));
}

#[test]
fn status_finds_no_line() {
    let cases: [(&[usize], usize); 14] = [
        (&[0, 1, 3, 4], 0),
        (&[1, 2, 3], 1),
        (&[2], 2),
        (&[3], 3),
        (&[21], 21),
        (&[21, 28], 21),
        (&[21, 28, 35], 28),
        (&[37, 40], 40),
        (&[0, 8, 24], 0),
        (&[0, 8, 16], 8),
        (&[8, 16, 24], 16),
        (&[21], 21),
        (&[21, 15, 3], 21),
        (&[21, 9, 3], 21),
    ];
    for (human, last) in cases {
        let board = ConnectFour::new(create_cells(human));
        assert!(!board.status(last), "{:?} at {}", human, last);
    }
}

#[test]
fn status_finds_every_line() {
    let cases: [(&[usize], usize); 15] = [
        (&[0, 1, 2, 3], 0),
        (&[0, 1, 2, 3], 1),
        (&[0, 1, 2, 3], 2),
        (&[0, 1, 2, 3], 3),
        (&[0, 7, 14, 21], 0),
        (&[7, 14, 21, 28], 7),
        (&[14, 21, 28, 35], 14),
        (&[0, 8, 16, 24], 0),
        (&[0, 8, 16, 24], 8),
        (&[0, 8, 16, 24], 16),
        (&[0, 8, 16, 24], 24),
        (&[21, 15, 9, 3], 21),
        (&[21, 15, 9, 3], 15),
        (&[21, 15, 9, 3], 9),
        (&[21, 15, 9, 3], 3),
    ];
    for (human, last) in cases {
        let board = ConnectFour::new(create_cells(human));
        assert!(board.status(last), "{:?} at {}", human, last);
    }
}

#[test]
fn status_by_direction() {
    let board = ConnectFour::new(create_cells(&[38, 39, 40, 41]));
    assert!(board.status_horizontal(41));
    assert!(board.status_horizontal(38));
    assert!(!board.status_vertical(41));
    assert!(!board.status_diagonal_tl(41));
    assert!(!board.status_diagonal_bl(41));

    let board = ConnectFour::new(create_cells(&[17, 25, 33, 41]));
    assert!(board.status_diagonal_tl(41));
    assert!(board.status_diagonal_tl(17));
    assert!(!board.status_diagonal_bl(41));
    assert!(!board.status_horizontal(41));

    let board = ConnectFour::new(create_cells(&[20, 26, 32, 38]));
    assert!(board.status_diagonal_bl(20));
    assert!(board.status_diagonal_bl(38));
    assert!(!board.status_diagonal_tl(38));

    let board = ConnectFour::new(create_cells(&[20, 27, 34, 41]));
    assert!(board.status_vertical(20));
    assert!(board.status(20));
}

#[test]
fn status_looks_down_only_from_the_probed_cell() {
    let board = ConnectFour::new(create_cells(&[14, 21, 28, 35]));
    assert!(board.status_vertical(14));
    assert!(!board.status_vertical(21));
    assert!(!board.status(28));
}

#[test]
fn status_does_not_run_over_the_edge() {
    // 5, 6 and 7, 8 are neighbours in memory, not on the board.
    let board = ConnectFour::new(create_cells(&[5, 6, 7, 8]));
    for cell in [5, 6, 7, 8] {
        assert!(!board.status(cell));
    }
    // A diagonal step of 8 from 6 lands on 14, the first cell of the next row but one.
    let board = ConnectFour::new(create_cells(&[6, 14, 22, 30]));
    for cell in [6, 14, 22, 30] {
        assert!(!board.status(cell));
    }
    // A diagonal step of 6 from 0 lands on 6, the last cell of the same row.
    let board = ConnectFour::new(create_cells(&[0, 6, 12, 18]));
    for cell in [0, 6, 12, 18] {
        assert!(!board.status(cell));
    }
    let board = ConnectFour::new(create_cells(&[35, 41, 29, 23]));
    for cell in [35, 41, 29, 23] {
        assert!(!board.status(cell));
    }
}

#[test]
fn status_row_follows_the_mask() {
    let board = ConnectFour::new(create_cells(&[35, 36, 37, 38]));
    // One cell before and two after 36 are looked at: 35..=38.
    assert!(board.status_row(0b0110, 36, -1, -2, -3, 1, 2, 3));
    // Nothing before and two after: no run of four fits.
    assert!(!board.status_row(0b0010, 36, -1, -2, -3, 1, 2, 3));
    // A mask of more than four bits selects nothing.
    assert!(!board.status_row(0b1_0110, 36, -1, -2, -3, 1, 2, 3));
    assert!(board.status_row(0b1100, 38, -1, -2, -3, 1, 2, 3));
    assert!(!board.status_row(0b1000, 38, -1, -2, -3, 1, 2, 3));
    assert!(board.status_row(0b0011, 35, -1, -2, -3, 1, 2, 3));
}

#[test]
fn decided_scans_the_whole_board() {
    assert!(!ConnectFour::new(create_cells(&[])).decided());
    assert!(!ConnectFour::new(create_cells(&[35, 36, 37])).decided());
    assert!(!ConnectFour::new(create_cells(&[5, 6, 7, 8])).decided());
    assert!(ConnectFour::new(create_cells(&[38, 39, 40, 41])).decided());
    assert!(ConnectFour::new(create_cells(&[14, 21, 28, 35])).decided());
    assert!(ConnectFour::new(create_cells(&[20, 26, 32, 38])).decided());
    assert!(ConnectFour::new(create_cells(&[17, 25, 33, 41])).decided());
    let mut cells = create_cells(&[38, 39, 40]);
    cells[41] = Player::Machine;
    assert!(!ConnectFour::new(cells).decided());
    let mut cells = [Player::Unset; 42];
    for i in [3, 9, 15, 21] {
        cells[i] = Player::Machine;
    }
    assert!(ConnectFour::new(cells).decided());
}
