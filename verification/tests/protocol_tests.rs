use battleship_server::protocol::{
    game_over_message, greeting, joined_message, miss_message, next_message, read_message,
    write_message,
};
use battleship_server::text::is_whitespace;
use battleship_server::{parse_join, parse_shot, ShotCommand};

#[test]
fn parse_join_valid() {
    let result = parse_join("J|Alice|BOARD_DATA_HERE");
    assert_eq!(
        result,
        Some(("Alice".to_string(), "BOARD_DATA_HERE".to_string()))
    );
}

#[test]
fn parse_join_board_contains_pipes() {
    // Everything after the second | is the board, including further pipe chars.
    let result = parse_join("J|Bob|a|b|c");
    assert_eq!(result, Some(("Bob".to_string(), "a|b|c".to_string())));
}

#[test]
fn parse_join_missing_board() {
    // Only one pipe - no board segment.
    assert_eq!(parse_join("J|NoBoard"), None);
}

#[test]
fn parse_join_empty_name() {
    assert_eq!(parse_join("J||some_board"), None);
}

#[test]
fn parse_join_wrong_prefix() {
    // Starts with 'J' but the prefix before the first | is not exactly "J".
    assert_eq!(parse_join("JOIN|name|board"), None);
}

#[test]
fn parse_join_non_join_message() {
    assert_eq!(parse_join("PING"), None);
    assert_eq!(parse_join("HELLO|world"), None);
}

#[test]
fn parse_join_empty_string() {
    assert_eq!(parse_join(""), None);
}

#[test]
fn parse_shot_valid() {
    let shot = parse_shot("S|Alice|3|7");
    assert_eq!(
        shot,
        Some(ShotCommand {
            target_name: "Alice".to_string(),
            x: 3,
            y: 7,
        })
    );
}

#[test]
fn parse_shot_invalid() {
    assert_eq!(parse_shot(""), None);
    assert_eq!(parse_shot("SHOT|Alice|3|7"), None);
    assert_eq!(parse_shot("S|Alice|3"), None); // missing y
    assert_eq!(parse_shot("S||3|7"), None); // empty name
    assert_eq!(parse_shot("S|Alice|foo|7"), None); // non-numeric x
    assert_eq!(parse_shot("S|Alice|3|bar"), None); // non-numeric y
}

#[test]
fn join_with_an_empty_board() {
    assert_eq!(parse_join("J|Ann|"), Some(("Ann".to_string(), String::new())));
    assert_eq!(parse_join("J"), None);
    assert_eq!(parse_join("J|"), None);
    assert_eq!(parse_join("J||"), None);
    assert_eq!(parse_join("j|Ann|b"), None);
    assert_eq!(
        parse_join("J|Z\u{f6}e|\u{2248}"),
        Some(("Z\u{f6}e".to_string(), "\u{2248}".to_string()))
    );
}

#[test]
fn fields_behind_the_coordinates_are_of_no_account() {
    let shot = Some(ShotCommand { target_name: "Al ice".to_string(), x: 1, y: 2 });
    assert_eq!(parse_shot("S|Al ice|1|2|"), shot);
    assert_eq!(parse_shot("S|Al ice|1|2|more|3"), shot.clone());
    assert_eq!(parse_shot("T|Al ice|1|2"), None);
    assert_eq!(parse_shot("|S|Al ice|1|2"), None);
    assert_eq!(parse_shot("S"), None);
    assert_eq!(parse_shot("SA|1|2|3"), None);
}

#[test]
fn coordinates_are_read_as_std_reads_a_usize() {
    for text in [
        "0", "007", "+5", "-1", "", "+", " 1", "18446744073709551615", "18446744073709551616",
        "18446744073709551620", "4294967295", "4294967296", "1e3",
    ] {
        let expected = text.parse::<usize>().ok();
        assert_eq!(parse_shot(&format!("S|A|{text}|1")).map(|s| s.x), expected, "{text:?}");
        assert_eq!(parse_shot(&format!("S|A|1|{text}")).map(|s| s.y), expected, "{text:?}");
    }
}

#[test]
fn written_commands_read_back() {
    for x in [0usize, 9, 10, 99, 12345, usize::MAX] {
        let msg = format!("S|Bob|{x}|{}", x / 3);
        assert_eq!(
            parse_shot(&msg),
            Some(ShotCommand { target_name: "Bob".to_string(), x, y: x / 3 })
        );
        assert_eq!(parse_join(&msg), None);
    }
    assert_eq!(parse_shot("J|Bob|1|2"), None);
}

#[test]
fn line_breaks_are_trimmed() {
    assert_eq!(read_message("PING\n"), "PING");
    assert_eq!(read_message("PING\r\n"), "PING");
    assert_eq!(read_message("PING"), "PING");
    assert_eq!(read_message("PING\r\r\n\n"), "PING");
    assert_eq!(read_message("PING\n\r"), "PING\n");
    assert_eq!(read_message(" PING \n"), " PING ");
    assert_eq!(read_message("\r\n"), "");
    assert_eq!(read_message(""), "");
}

#[test]
fn what_is_written_is_read_back() {
    for msg in ["J|Alice", "", "a\rb", " "] {
        assert_eq!(write_message(msg), format!("{msg}\n"));
        assert_eq!(read_message(&write_message(msg)), msg);
    }
}

#[test]
fn a_relayed_message_is_read_as_it_was() {
    for line in ["PING\n", "PING\r\n", "P\rI\r\r\n", " \n"] {
        let msg = read_message(line);
        assert_eq!(read_message(&write_message(&msg)), msg, "{line:?}");
    }
}

#[test]
fn server_messages() {
    assert_eq!(greeting(), "G\n");
    assert_eq!(joined_message("Alice"), "J|Alice");
    assert_eq!(next_message("Alice"), "N|Alice");
    assert_eq!(miss_message("Alice"), "M|Alice");
    assert_eq!(game_over_message("Bob"), "N|Bob|GameOver");
    // What announces a player is itself no join.
    assert_eq!(parse_join(&joined_message("Alice")), None);
}

#[test]
fn whitespace_is_what_std_calls_whitespace() {
    for code in 0..=0x10ffffu32 {
        if let Some(c) = char::from_u32(code) {
            assert_eq!(is_whitespace(c), c.is_whitespace(), "{c:?}");
        }
    }
}
