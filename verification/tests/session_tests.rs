use battleship_server::game::{announce_join, announce_roster, find_target, fire, Reaction};
use battleship_server::session::{connected, step, Event, Step};
use battleship_server::{parse_shot, Board, ClientInfo, Registry};

/// A server without sockets: connections are numbers, and what would be written to a
/// client is kept in its inbox.
struct Table {
    registry: Registry,
    inboxes: Vec<Option<Vec<String>>>,
    clock: u64,
    over: bool,
    console: Vec<String>,
}

impl Table {
    fn new() -> Table {
        Table { registry: Registry::new(), inboxes: Vec::new(), clock: 0, over: false, console: Vec::new() }
    }

    fn connect(&mut self) -> u64 {
        match connected() {
            Step::Write(text) => self.inboxes.push(Some(vec![text])),
            _ => panic!("a client is greeted"),
        }
        (self.inboxes.len() - 1) as u64
    }

    fn event(&mut self, id: u64, event: Event) -> Step {
        self.clock += 1;
        step(&mut self.registry, id, "127.0.0.1:5000", event, self.clock)
    }

    fn send(&mut self, id: u64, line: &str) {
        match self.event(id, Event::Line(line.to_string())) {
            Step::React(reaction) => {
                self.over = self.over || reaction.ends_game();
                match &reaction {
                    Reaction::Joined { shown: Some(text), .. } => self.console.push(text.clone()),
                    Reaction::Fired { report, .. } => {
                        if let Some(text) = &report.shown {
                            self.console.push(text.clone());
                        }
                    }
                    _ => {}
                }
                for msg in reaction.into_broadcasts() {
                    self.announce(&msg);
                }
            }
            Step::Wait => {}
            _ => panic!("a line neither writes nor closes"),
        }
    }

    fn announce(&mut self, msg: &str) {
        for id in 0..self.inboxes.len() {
            if self.inboxes[id].is_some() {
                match self.event(id as u64, Event::Announced(msg.to_string())) {
                    Step::Write(text) => self.inboxes[id].as_mut().unwrap().push(text),
                    _ => panic!("an announcement is written"),
                }
            }
        }
    }

    fn drain(&mut self, id: u64) -> Vec<String> {
        let inbox = self.inboxes[id as usize].as_mut().unwrap();
        let lines = inbox.iter().map(|l| l.trim().to_string()).collect();
        inbox.clear();
        lines
    }

    fn leave(&mut self, id: u64, event: Event) {
        assert!(matches!(self.event(id, event), Step::Close));
        self.inboxes[id as usize] = None;
    }

    fn client(&self, name: &str) -> &ClientInfo {
        let order = self.registry.ids();
        let id = find_target(&self.registry, &order, &name.to_string()).expect("a client of that name");
        self.registry.get(id).unwrap()
    }
}

fn sorted(mut lines: Vec<String>) -> Vec<String> {
    lines.sort();
    lines
}

fn board_with(ships: &[(usize, char)]) -> String {
    let mut cells: Vec<char> = vec!['.'; 100];
    for (i, c) in ships {
        cells[*i] = *c;
    }
    cells.into_iter().collect()
}

#[test]
fn client_receives_greeting_on_connect() {
    let mut table = Table::new();
    let a = table.connect();
    assert_eq!(table.inboxes[a as usize], Some(vec!["G\n".to_string()]));
}

#[test]
fn message_is_broadcast_to_sender() {
    let mut table = Table::new();
    let a = table.connect();
    assert_eq!(table.drain(a), vec!["G"]);
    table.send(a, "HELLO\n");
    assert_eq!(table.drain(a), vec!["HELLO"]);
}

#[test]
fn message_is_broadcast_to_other_clients() {
    let mut table = Table::new();
    let a = table.connect();
    let b = table.connect();
    table.drain(a);
    table.drain(b);
    table.send(a, "PING\n");
    assert_eq!(table.drain(a), vec!["PING"]);
    assert_eq!(table.drain(b), vec!["PING"]);
}

#[test]
fn multiple_messages_delivered_in_order() {
    let mut table = Table::new();
    let a = table.connect();
    table.drain(a);
    for msg in ["ONE", "TWO", "THREE"] {
        table.send(a, &format!("{msg}\n"));
    }
    assert_eq!(table.drain(a), vec!["ONE", "TWO", "THREE"]);
}

#[test]
fn join_message_registers_client() {
    let mut table = Table::new();
    let a = table.connect();
    table.drain(a);
    table.send(a, "J|Alice|my_board\n");
    assert_eq!(table.drain(a), vec!["J|Alice"]);
    let info = table.registry.get(a).expect("expected one registered client");
    assert_eq!(info.name, "Alice");
    assert_eq!(info.board_str, "my_board");
    assert_eq!(info.board, None);
}

#[test]
fn join_message_board_preserves_pipes() {
    let mut table = Table::new();
    let a = table.connect();
    table.drain(a);
    table.send(a, "J|Bob|row1|row2|row3\n");
    assert_eq!(table.drain(a), vec!["J|Bob"]);
    let info = table.registry.get(a).expect("expected one registered client");
    assert_eq!(info.name, "Bob");
    assert_eq!(info.board_str, "row1|row2|row3");
}

#[test]
fn non_join_message_does_not_register_client() {
    let mut table = Table::new();
    let a = table.connect();
    table.send(a, "PING\n");
    assert!(table.registry.is_empty(), "registry should be empty for non-join messages");
}

#[test]
fn join_message_not_broadcast_raw() {
    let mut table = Table::new();
    let a = table.connect();
    let b = table.connect();
    table.drain(a);
    table.drain(b);
    table.send(a, "J|Alice|board\n");
    assert_eq!(table.drain(a), vec!["J|Alice"]);
    assert_eq!(table.drain(b), vec!["J|Alice"]);
}

#[test]
fn join_broadcasts_full_roster() {
    let mut table = Table::new();
    let a = table.connect();
    table.drain(a);
    table.send(a, "J|Alice|board_a\n");
    assert_eq!(table.drain(a), vec!["J|Alice"]); // only Alice in roster, no N| yet

    let b = table.connect();
    table.drain(b);
    table.send(b, "J|Bob|board_b\n");
    for id in [a, b] {
        let mut lines = table.drain(id);
        // The two J| lines can arrive in any order; the N| line comes last.
        assert_eq!(lines.pop(), Some("N|Alice".to_string()));
        assert_eq!(sorted(lines), vec!["J|Alice", "J|Bob"]);
    }
}

#[test]
fn multiple_clients_registered_independently() {
    let mut table = Table::new();
    let a = table.connect();
    let b = table.connect();
    table.send(a, "J|Alice|board_a\n");
    table.send(b, "J|Bob|board_b\n");
    assert_eq!(table.registry.len(), 2, "both clients should be in the registry");
    assert_eq!(table.client("Alice").board_str, "board_a");
    assert_eq!(table.client("Bob").board_str, "board_b");
}

#[test]
fn client_removed_from_registry_on_disconnect() {
    let mut table = Table::new();
    let a = table.connect();
    table.drain(a);
    table.send(a, "J|Temp|temp_board\n");
    assert_eq!(table.drain(a), vec!["J|Temp"]);
    assert_eq!(table.registry.len(), 1);
    table.leave(a, Event::EndOfStream);
    assert!(table.registry.is_empty(), "registry should be empty after client disconnects");
}

#[test]
fn join_message_updates_existing_entry() {
    let mut table = Table::new();
    let a = table.connect();
    table.drain(a);
    table.send(a, "J|OldName|old_board\n");
    assert_eq!(table.drain(a), vec!["J|OldName"]);
    table.send(a, "J|NewName|new_board\n");
    assert_eq!(table.drain(a), vec!["J|NewName"]);
    assert_eq!(table.registry.len(), 1, "should still be only one entry");
    let info = table.registry.get(a).unwrap();
    assert_eq!(info.name, "NewName");
    assert_eq!(info.board_str, "new_board");
}

#[test]
fn first_joiner_named_in_n_message() {
    let mut table = Table::new();
    let a = table.connect();
    let b = table.connect();
    // The connection that came second joins first.
    table.send(b, "J|First|board_a\n");
    table.drain(a);
    table.drain(b);
    table.send(a, "J|Second|board_b\n");
    for id in [a, b] {
        let lines = table.drain(id);
        assert_eq!(lines.len(), 3);
        assert_eq!(lines.iter().find(|l| l.starts_with("N|")).unwrap(), "N|First");
    }
}

#[test]
fn n_message_not_sent_on_third_join() {
    let mut table = Table::new();
    let a = table.connect();
    let b = table.connect();
    let c = table.connect();
    table.send(a, "J|A|ba\n");
    table.send(b, "J|B|bb\n");
    for id in [a, b, c] {
        table.drain(id);
    }
    table.send(c, "J|C|bc\n");
    for id in [a, b, c] {
        assert_eq!(sorted(table.drain(id)), vec!["J|A", "J|B", "J|C"]);
    }
}

#[test]
fn a_repeated_join_announces_the_roster_alone() {
    let mut table = Table::new();
    let a = table.connect();
    let b = table.connect();
    table.send(a, "J|A|ba\n");
    table.send(b, "J|B|bb\n");
    assert_eq!(table.drain(a).last(), Some(&"N|A".to_string()));
    table.drain(b);

    table.send(b, "J|B2|bb2\n");
    for id in [a, b] {
        assert_eq!(sorted(table.drain(id)), vec!["J|A", "J|B2"]);
    }
    table.send(a, "J|A2|ba2\n");
    for id in [a, b] {
        assert_eq!(sorted(table.drain(id)), vec!["J|A2", "J|B2"]);
    }
    assert_eq!(table.registry.len(), 2);
    assert_eq!(table.client("B2").board_str, "bb2");
}

#[test]
fn a_client_is_greeted_and_written_every_announcement() {
    let mut table = Table::new();
    let a = table.connect();
    let b = table.connect();
    table.send(a, "ONE\r\n");
    table.send(b, "J|B|bb\n");
    table.send(a, "\n");
    assert!(matches!(table.event(a, Event::Lagged(2)), Step::Wait));
    table.send(b, "TWO\n");
    assert_eq!(
        table.inboxes[a as usize].clone().unwrap().concat(),
        "G\nONE\nJ|B\nTWO\n"
    );
}

#[test]
fn shot_command_broadcast_and_board_checked() {
    let mut table = Table::new();
    let a = table.connect();
    let b = table.connect();
    let alice_board = board_with(&[(23, 'S'), (44, 'D')]);
    table.send(a, &format!("J|Alice|{alice_board}\n"));
    table.send(b, &format!("J|Bob|{}\n", ".".repeat(100)));
    table.drain(a);
    table.drain(b);

    let board = table.client("Alice").board.clone().expect("Alice should have parsed board");
    assert!(board.is_hit(4, 3));
    assert!(!board.is_hit(1, 1));

    // A hit
    table.send(b, "S|Alice|4|3\n");
    assert_eq!(table.drain(a), vec!["S|Alice|4|3", "N|Alice"]);
    assert_eq!(table.drain(b), vec!["S|Alice|4|3", "N|Alice"]);
    let board = table.client("Alice").board.clone().unwrap();
    assert_eq!(board.0[2][3], 'x');
    assert!(board.is_hit(4, 3));

    // A miss
    table.send(b, "S|Alice|1|1\n");
    assert_eq!(table.drain(a), vec!["S|Alice|1|1", "M|Alice", "N|Alice"]);
    assert_eq!(table.drain(b), vec!["S|Alice|1|1", "M|Alice", "N|Alice"]);
    assert_eq!(table.client("Alice").board.clone().unwrap().0[0][0], '-');
    assert!(!table.over);
}

#[test]
fn game_over_when_all_letters_hit() {
    let mut table = Table::new();
    let a = table.connect();
    let b = table.connect();
    let mut alice_board = ".".repeat(100);
    alice_board.replace_range(11..12, "S"); // (2, 2) in 1-based coordinates is index 11
    table.send(a, &format!("J|Alice|{alice_board}\n"));
    table.send(b, &format!("J|Bob|{}\n", ".".repeat(100)));
    table.drain(a);
    table.drain(b);
    assert!(!table.over);

    table.send(b, "S|Alice|2|2\n");
    assert_eq!(table.drain(a), vec!["S|Alice|2|2", "N|Bob|GameOver"]);
    assert_eq!(table.drain(b), vec!["S|Alice|2|2", "N|Bob|GameOver"]);
    assert!(table.over);
    assert!(!table.client("Alice").board.as_ref().unwrap().has_remaining_letters());
}

#[test]
fn shots_that_hit_no_board() {
    let mut table = Table::new();
    let a = table.connect();
    table.send(a, "J|Alice|no board\n");
    table.drain(a);
    // The target has no board.
    table.send(a, "S|Alice|1|1\n");
    assert_eq!(table.drain(a), vec!["S|Alice|1|1", "M|Alice", "N|Alice"]);
    // There is no such target.
    table.send(a, "S|Carol|1|1|x\n");
    assert_eq!(table.drain(a), vec!["S|Carol|1|1|x", "M|Carol", "N|Carol"]);
    // The target has a board, but the shot is off it.
    let board = board_with(&[(0, 'S')]);
    table.send(a, &format!("J|Alice|{board}\n"));
    table.drain(a);
    table.send(a, "S|Alice|0|11\n");
    assert_eq!(table.drain(a), vec!["S|Alice|0|11", "M|Alice", "N|Alice"]);
    assert_eq!(table.client("Alice").board, Board::parse(&board));
}

#[test]
fn a_shooter_that_has_not_joined_is_unknown() {
    let mut table = Table::new();
    let a = table.connect();
    let b = table.connect();
    table.send(a, &format!("J|Alice|{}\n", board_with(&[(99, 'q')])));
    table.drain(b);
    table.send(b, "S|Alice|10|10\n");
    assert_eq!(table.drain(b), vec!["S|Alice|10|10", "N|Unknown|GameOver"]);
    assert!(table.over);
}

#[test]
fn a_missed_cell_counts_as_a_hit_the_next_time() {
    let mut table = Table::new();
    let a = table.connect();
    table.send(a, &format!("J|Alice|{}\n", board_with(&[(99, 'S')])));
    table.drain(a);
    table.send(a, "S|Alice|1|1\n");
    assert_eq!(table.drain(a), vec!["S|Alice|1|1", "M|Alice", "N|Alice"]);
    table.send(a, "S|Alice|1|1\n");
    assert_eq!(table.drain(a), vec!["S|Alice|1|1", "N|Alice"]);
    assert_eq!(table.client("Alice").board.as_ref().unwrap().0[0][0], 'x');
}

#[test]
fn a_shot_touches_the_target_alone() {
    let mut table = Table::new();
    let a = table.connect();
    let b = table.connect();
    let board = board_with(&[(0, 'S'), (1, 'S')]);
    table.send(a, &format!("J|Alice|{board}\n"));
    table.send(b, &format!("J|Bob|{board}\n"));
    let joined_at = table.client("Alice").joined_at;
    table.send(b, "S|Alice|1|1\n");
    let mut expected = Board::parse(&board).unwrap();
    assert_eq!(table.client("Bob").board.as_ref(), Some(&expected));
    expected.set_hit(1, 1);
    assert_eq!(table.client("Alice").board.as_ref(), Some(&expected));
    assert_eq!(table.client("Alice").board_str, board);
    assert_eq!(table.client("Alice").joined_at, joined_at);
    assert_eq!(table.registry.len(), 2);
}

#[test]
fn boards_are_shown_on_the_console() {
    let mut table = Table::new();
    let a = table.connect();
    let text = board_with(&[(0, 'S'), (14, 'S')]);
    table.send(a, &format!("J|Alice|{text}\n"));
    let mut board = Board::parse(&text).unwrap();
    assert_eq!(
        table.console.pop(),
        Some(board.to_labeled_string("Client Alice (127.0.0.1:5000) joined"))
    );
    table.send(a, "S|Alice|5|+02\n");
    board.set_hit(5, 2);
    assert_eq!(table.console.pop(), Some(board.to_labeled_string("HIT on Alice at (5, 2)")));
    table.send(a, "S|Alice|9|9\n");
    assert_eq!(table.console.pop(), None);
}

#[test]
fn empty_lines_are_ignored() {
    let mut table = Table::new();
    let a = table.connect();
    for line in ["\n", "\r\n", "", "\r\r\n"] {
        assert!(matches!(table.event(a, Event::Line(line.to_string())), Step::Wait));
    }
    table.drain(a);
    table.send(a, " \n");
    assert_eq!(table.inboxes[a as usize], Some(vec![" \n".to_string()]));
}

#[test]
fn connections_close_on_every_kind_of_end() {
    for (i, event) in [Event::EndOfStream, Event::Failure, Event::Closed].into_iter().enumerate() {
        let mut table = Table::new();
        let a = table.connect();
        let b = table.connect();
        table.send(a, "J|Alice|a\n");
        table.send(b, "J|Bob|b\n");
        table.leave(a, event);
        assert_eq!(table.registry.ids(), vec![b], "{i}");
    }
    let mut table = Table::new();
    let a = table.connect();
    table.send(a, "J|Alice|a\n");
    assert!(matches!(table.event(a, Event::Lagged(3)), Step::Wait));
    assert_eq!(table.registry.len(), 1);
}

#[test]
fn two_players_again_after_one_left() {
    let mut table = Table::new();
    let a = table.connect();
    let b = table.connect();
    let c = table.connect();
    table.send(a, "J|A|a\n");
    table.send(b, "J|B|b\n");
    table.leave(a, Event::EndOfStream);
    table.drain(c);
    table.send(c, "J|C|c\n");
    let mut lines = table.drain(c);
    assert_eq!(lines.pop(), Some("N|B".to_string()));
    assert_eq!(sorted(lines), vec!["J|B", "J|C"]);
}

fn info(name: &str, joined_at: u64) -> ClientInfo {
    ClientInfo { name: name.to_string(), board_str: String::new(), board: None, joined_at }
}

#[test]
fn the_order_of_the_walk_decides_among_equals() {
    let mut registry = Registry::new();
    registry.insert(4, info("twin", 7));
    registry.insert(2, info("twin", 7));
    assert_eq!(find_target(&registry, &vec![4, 2], &"twin".to_string()), Some(4));
    assert_eq!(find_target(&registry, &vec![2, 4], &"twin".to_string()), Some(2));
    assert_eq!(find_target(&registry, &vec![2, 4], &"other".to_string()), None);

    registry.insert(2, info("late", 7));
    assert_eq!(announce_roster(&registry, &vec![4, 2]), vec!["J|twin", "J|late"]);
    assert_eq!(announce_roster(&registry, &vec![2, 4]), vec!["J|late", "J|twin"]);
    assert_eq!(announce_join(&registry, &vec![4, 2]), vec!["J|twin", "J|late", "N|twin"]);
    assert_eq!(announce_join(&registry, &vec![2, 4]), vec!["J|late", "J|twin", "N|late"]);
    registry.insert(2, info("late", 8));
    assert_eq!(announce_join(&registry, &vec![2, 4]), vec!["J|late", "J|twin", "N|twin"]);
    assert_eq!(registry.remove(2).unwrap().name, "late");
    assert!(registry.remove(2).is_none());
    assert_eq!(announce_join(&registry, &vec![4]), vec!["J|twin"]);
}

#[test]
fn a_shot_is_fired_at_the_client_that_was_found() {
    let mut registry = Registry::new();
    let mut target = info("T", 1);
    target.board = Board::parse(&board_with(&[(0, 'a'), (1, 'b')]));
    registry.insert(1, target.clone());
    registry.insert(2, target);
    let msg = "S|T|2|1";
    let shot = parse_shot(msg).unwrap();
    let report = fire(&mut registry, 9, Some(2), &shot, msg.to_string());
    assert!(report.hit);
    assert!(!report.game_over);
    assert_eq!(report.broadcasts, vec!["S|T|2|1", "N|T"]);
    assert_eq!(registry.get(2).unwrap().board.as_ref().unwrap().0[0][1], 'x');
    assert_eq!(registry.get(1).unwrap().board.as_ref().unwrap().0[0][1], 'b');
    let report = fire(&mut registry, 9, None, &shot, msg.to_string());
    assert!(!report.hit);
    assert!(report.shown.is_none());
    assert_eq!(report.broadcasts, vec!["S|T|2|1", "M|T", "N|T"]);
}
