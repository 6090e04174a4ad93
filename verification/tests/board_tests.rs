use battleship_server::Board;

fn rows_joined_by(sep: &str) -> String {
    let row_dot = "..........";
    let row_sub = "..S.......";
    let mut rows = vec![row_sub];
    for _ in 0..9 {
        rows.push(row_dot);
    }
    rows.join(sep)
}

#[test]
fn board_parse_and_hit_detection() {
    // 100 character board (row 0 has 'S' at x=3, y=1; row 3 has 'X' at x=6, y=4 in 1-based coords)
    let mut raw = String::new();
    for row in 0..10 {
        for col in 0..10 {
            if row == 0 && col == 2 {
                raw.push('S');
            } else if row == 3 && col == 5 {
                raw.push('X');
            } else {
                raw.push('.');
            }
        }
    }
    assert_eq!(raw.len(), 100);
    let board = Board::parse(&raw).expect("valid 10x10 board");

    // Hit positions (non-dot) - 1-indexed
    assert!(board.is_hit(3, 1));
    assert!(board.is_hit(6, 4));

    // Miss positions (dot) - 1-indexed
    assert!(!board.is_hit(1, 1));
    assert!(!board.is_hit(3, 2));
    assert!(!board.is_hit(10, 10));

    // Out of bounds in 1-indexed system
    assert!(!board.is_hit(0, 0));
    assert!(!board.is_hit(0, 1));
    assert!(!board.is_hit(1, 0));
    assert!(!board.is_hit(11, 1));
    assert!(!board.is_hit(1, 11));
}

#[test]
fn board_parse_with_pipes_delimited_rows() {
    // 10 rows of 10 characters joined by '|'
    let row_dot = "..........";
    let row_sub = "..S.......";
    let raw = format!("{row_sub}|{row_dot}|{row_dot}|{row_dot}|{row_dot}|{row_dot}|{row_dot}|{row_dot}|{row_dot}|{row_dot}");
    let board = Board::parse(&raw).expect("valid pipe-delimited board");
    assert!(board.is_hit(3, 1));
    assert!(!board.is_hit(1, 1));
    assert!(!board.is_hit(3, 2));
}

#[test]
fn board_parse_invalid_length() {
    assert_eq!(Board::parse("short"), None);
    assert_eq!(Board::parse("....................................................................................................."), None); // 101 dots
}

#[test]
fn board_ascii_formatting() {
    let raw = ".".repeat(100);
    let board = Board::parse(&raw).unwrap();
    let ascii = board.to_ascii_string();
    assert!(ascii.contains("1 2 3 4 5 6 7 8 9 10"));
    assert!(ascii.contains("+--------------------+"));
    assert!(ascii.contains(" 1 |. . . . . . . . . .|"));
    assert!(ascii.contains("10 |. . . . . . . . . .|"));
    // Verify that the labelled form doesn't panic
    assert!(board.to_labeled_string("Test Board").contains("Test Board"));
}

#[test]
fn board_set_hit_and_set_miss() {
    let raw = ".".repeat(100);
    let mut board = Board::parse(&raw).unwrap();
    assert!(!board.is_hit(5, 6));
    board.set_hit(5, 6);
    assert_eq!(board.0[5][4], 'x');
    assert!(board.is_hit(5, 6));

    board.set_miss(1, 2);
    assert_eq!(board.0[1][0], '-');
}

#[test]
fn board_has_remaining_letters() {
    let raw = ".".repeat(100);
    let mut board = Board::parse(&raw).unwrap();
    assert!(!board.has_remaining_letters());

    // Single uppercase letter
    board.0[0][0] = 'S';
    assert!(board.has_remaining_letters());

    // Hit with 'x' at (1, 1)
    board.set_hit(1, 1);
    assert!(!board.has_remaining_letters());

    // Lowercase letter at row 1, col 1 -> (2, 2)
    board.0[1][1] = 'd';
    assert!(board.has_remaining_letters());
    board.set_hit(2, 2);
    assert!(!board.has_remaining_letters());
}

#[test]
fn rows_may_be_separated_by_any_delimiter() {
    let plain = Board::parse(&rows_joined_by("")).unwrap();
    for sep in ["|", "\n", "\r\n", " ", "\t", " | ", "\u{a0}", "\u{2003}", "\u{3000}"] {
        assert_eq!(Board::parse(&rows_joined_by(sep)), Some(plain.clone()), "{sep:?}");
    }
    // Something else between the rows counts as a cell.
    assert_eq!(Board::parse(&rows_joined_by(",")), None);
    // A delimiter is never a cell.
    let mut blank = ".".repeat(99);
    blank.push(' ');
    assert_eq!(Board::parse(&blank), None);
}

#[test]
fn cells_are_filled_row_by_row() {
    let mut raw = String::new();
    for i in 0..100u32 {
        raw.push(char::from_u32(0x100 + i).unwrap());
    }
    let board = Board::parse(&raw).unwrap();
    for i in 0..100u32 {
        let c = char::from_u32(0x100 + i).unwrap();
        assert_eq!(board.0[(i / 10) as usize][(i % 10) as usize], c);
    }
    // Spelled out row by row, a board reads back as itself.
    let mut spelled = String::new();
    for row in board.0.iter() {
        for c in row.iter() {
            spelled.push(*c);
        }
    }
    assert_eq!(Board::parse(&spelled), Some(board));
}

#[test]
fn marks_off_the_board_change_nothing() {
    let board = Board::parse(&rows_joined_by("")).unwrap();
    let mut other = board.clone();
    for (x, y) in [(0, 0), (0, 5), (5, 0), (11, 5), (5, 11), (usize::MAX, usize::MAX)] {
        other.set_hit(x, y);
        other.set_miss(x, y);
    }
    assert_eq!(other, board);
}

#[test]
fn a_mark_changes_one_cell() {
    let board = Board::parse(&rows_joined_by("")).unwrap();
    let mut hit = board.clone();
    hit.set_hit(10, 1);
    let mut miss = board.clone();
    miss.set_miss(10, 1);
    for y in 0..10 {
        for x in 0..10 {
            if (x, y) == (9, 0) {
                assert_eq!(hit.0[y][x], 'x');
                assert_eq!(miss.0[y][x], '-');
            } else {
                assert_eq!(hit.0[y][x], board.0[y][x]);
                assert_eq!(miss.0[y][x], board.0[y][x]);
            }
        }
    }
    // A missed cell is no longer water.
    assert!(miss.is_hit(10, 1));
}

#[test]
fn only_letters_other_than_x_are_ship_parts() {
    let mut board = Board::parse(&".".repeat(100)).unwrap();
    for c in ['x', 'X', '-', '#', '1', '@', '[', '`', '{', '\u{e9}'] {
        board.0[9][9] = c;
        assert!(!board.has_remaining_letters(), "{c:?}");
    }
    for c in ['a', 'z', 'A', 'Z', 'w', 'y', 'W', 'Y'] {
        board.0[9][9] = c;
        assert!(board.has_remaining_letters(), "{c:?}");
    }
}

#[test]
fn drawing_of_a_board() {
    let mut board = Board::parse(&rows_joined_by("")).unwrap();
    board.set_hit(3, 1);
    board.set_miss(10, 10);
    let expected = "    1 2 3 4 5 6 7 8 9 10
   +--------------------+
 1 |. . x . . . . . . .|
 2 |. . . . . . . . . .|
 3 |. . . . . . . . . .|
 4 |. . . . . . . . . .|
 5 |. . . . . . . . . .|
 6 |. . . . . . . . . .|
 7 |. . . . . . . . . .|
 8 |. . . . . . . . . .|
 9 |. . . . . . . . . .|
10 |. . . . . . . . . -|
   +--------------------+";
    assert_eq!(board.to_ascii_string(), expected);
    assert_eq!(board.to_labeled_string(""), format!("{expected}\n"));
    assert_eq!(board.to_labeled_string("A"), format!("--- Board: A ---\n{expected}\n"));
}
