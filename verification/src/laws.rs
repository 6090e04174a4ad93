//! What the library promises, in the terms of those who use it: characters, coordinates,
//! lines and announcements.
use vstd::prelude::*;

use crate::board::{
    board_of, delimiter, delimiters_do_not_matter, drawing, drawn_cells, drawn_row, drawn_rows,
    hit_at, labeled_drawing, lemma_no_delimiters, marked, ship_part, ships_left,
};
use crate::board::Board;
use crate::config::{addr_of, host_of, port_of, DEFAULT_PORT};
use crate::game::{
    after_shot, clients_after_shot, defended, effect, enrolled, hits, join_broadcasts, joining,
    roster, shooter_name, shot_broadcasts, shown_after_shot, wins,
};
use crate::game::{Effect, Reaction};
use crate::protocol::{
    a_join_is_what_it_spells, a_shot_is_what_it_spells, a_written_join_is_read,
    game_over_text, join_of, joined_text, lemma_shot_fields, lemma_trimmed, line_of, message_of,
    miss_text, next_text, no_join_is_a_shot, shot_of, spells_shot, trimmed,
};
use crate::protocol::{Shot, ShotCommand};
use crate::registry::{
    a_walk_meets_every_client, first_joiner, lemma_first_joiner, named, walks,
};
use crate::registry::{Client, ClientInfo, Clients};
use crate::session::{outcome, walked};
use crate::session::{Deed, Event, Step};
use crate::text::{
    ascii_digit, decimal, decimal_has_its_value, decimal_is_read_back, digits_value, texts,
    unsigned_digits, unsigned_value, whitespace,
};

verus! {

// ---------------------------------------------------------------------------
// Numbers
// ---------------------------------------------------------------------------

/// A number is read digit by digit. A single character stands for a number just where it
/// is a digit, a `+` alone or nothing at all for none, and a `+` in front changes nothing. One
/// more character makes ten times the number plus the digit that it is; where it is no
/// digit, where there was no number before it, or where the number gets too large, there
/// is no number.
pub proof fn a_number_is_read_digit_by_digit(s: Seq<char>, c: char, max: nat)
    ensures
        unsigned_value(Seq::empty(), max) is None,
        unsigned_value(seq!['+'], max) is None,
        s.len() == 0 || s == seq!['+'] ==> unsigned_value(s.push(c), max) == (if '0' <= c && c
            <= '9' && c as nat - 48 <= max {
            Some((c as nat - 48) as nat)
        } else {
            None
        }),
        s.len() > 0 && s != seq!['+'] ==> unsigned_value(s.push(c), max) == (match unsigned_value(
            s,
            max,
        ) {
            Some(v) => if '0' <= c && c <= '9' && 10 * v + (c as nat - 48) <= max {
                Some((10 * v + (c as nat - 48)) as nat)
            } else {
                None
            },
            None => None,
        }),
{
    let t = s.push(c);
    let d = unsigned_digits(s);
    let e = unsigned_digits(t);
    assert(unsigned_digits(seq!['+']) =~= Seq::<char>::empty());
    assert(digits_value(Seq::<char>::empty()) == 0);
    if s.len() == 0 {
        assert(t[0] == c);
        if c == '+' {
            assert(t =~= seq!['+']);
        } else {
            assert(e =~= seq![c]);
            assert(e.drop_last() =~= Seq::<char>::empty());
            assert(e[0] == c);
        }
    } else if s == seq!['+'] {
        assert(e =~= seq![c]);
        assert(e.drop_last() =~= Seq::<char>::empty());
        assert(e[0] == c);
    } else {
        assert(e =~= d.push(c));
        assert(e.drop_last() =~= d);
        assert(e[d.len() as int] == c);
        if s[0] == '+' && s.len() == 1 {
            assert(s =~= seq!['+']);
        }
        assert(d.len() > 0);
        assert(forall|i: int| 0 <= i < d.len() ==> d[i] == #[trigger] e[i]);
        assert((forall|i: int| 0 <= i < e.len() ==> ascii_digit(#[trigger] e[i])) ==> forall|
            i: int,
        |
            0 <= i < d.len() ==> ascii_digit(#[trigger] d[i])) by {
            if forall|i: int| 0 <= i < e.len() ==> ascii_digit(#[trigger] e[i]) {
                assert forall|i: int| 0 <= i < d.len() implies ascii_digit(#[trigger] d[i]) by {
                    assert(ascii_digit(e[i]));
                }
            }
        }
        assert(unsigned_value(t, max) is Some ==> ascii_digit(e[d.len() as int]));
    }
}

/// A number is written with digits alone, without a leading zero unless it is zero, and
/// the digits are read as the number.
pub proof fn a_number_is_written_in_decimal(n: nat, max: nat)
    requires
        n <= max,
    ensures
        decimal(n).len() > 0,
        forall|i: int|
            0 <= i < decimal(n).len() ==> '0' <= #[trigger] decimal(n)[i] && decimal(n)[i] <= '9',
        decimal(n)[0] == '0' ==> n == 0 && decimal(n).len() == 1,
        unsigned_value(decimal(n), max) == Some(n),
    decreases n,
{
    decimal_has_its_value(n);
    decimal_is_read_back(n, max);
    assert forall|i: int| 0 <= i < decimal(n).len() implies '0' <= #[trigger] decimal(n)[i]
        && decimal(n)[i] <= '9' by {
        assert(ascii_digit(decimal(n)[i]));
    }
    if n >= 10 {
        a_number_is_written_in_decimal(n / 10, max);
        assert(decimal(n)[0] == decimal(n / 10)[0]);
    }
}

/// A list of strings is told by what each of them holds, in order.
pub proof fn texts_are_what_the_strings_hold(v: Seq<String>)
    ensures
        texts(v).len() == v.len(),
        forall|i: int| 0 <= i < v.len() ==> #[trigger] texts(v)[i] == v[i]@,
{
}

// ---------------------------------------------------------------------------
// Boards
// ---------------------------------------------------------------------------

/// The cells of a board are those of its grid, row by row.
pub proof fn cells_stand_row_by_row(b: Board)
    ensures
        b@.len() == 100,
        forall|x: int, y: int|
            1 <= x <= 10 && 1 <= y <= 10 ==> b@[(y - 1) * 10 + (x - 1)] == #[trigger] b.0@[y
                - 1]@[x - 1],
{
    assert forall|x: int, y: int| 1 <= x <= 10 && 1 <= y <= 10 implies b@[(y - 1) * 10 + (x - 1)]
        == #[trigger] b.0@[y - 1]@[x - 1] by {
        let i = (y - 1) * 10 + (x - 1);
        assert(i / 10 == y - 1 && i % 10 == x - 1);
    }
}

/// Just the bar and whitespace are no cells.
pub proof fn delimiters_are_bars_and_whitespace(c: char)
    ensures
        delimiter(c) <==> c == '|' || ('\u{9}' <= c && c <= '\u{d}') || c == ' '
        || c == '\u{85}' || c == '\u{a0}'
        || c == '\u{1680}' || ('\u{2000}' <= c && c <= '\u{200a}') || c == '\u{2028}'
        || c == '\u{2029}' || c == '\u{202f}' || c == '\u{205f}' || c == '\u{3000}',
        whitespace(c) <==> ('\u{9}' <= c && c <= '\u{d}') || c == ' '
        || c == '\u{85}' || c == '\u{a0}'
        || c == '\u{1680}' || ('\u{2000}' <= c && c <= '\u{200a}') || c == '\u{2028}'
        || c == '\u{2029}' || c == '\u{202f}' || c == '\u{205f}' || c == '\u{3000}',
{
}

/// A bar or a whitespace character may stand anywhere in a written board: with it and
/// without it the board is the same.
pub proof fn a_bar_or_whitespace_is_no_cell(before: Seq<char>, c: char, after: Seq<char>)
    requires
        c == '|' || ('\u{9}' <= c && c <= '\u{d}') || c == ' ' || c == '\u{85}' || c == '\u{a0}'
        || c == '\u{1680}' || ('\u{2000}' <= c && c <= '\u{200a}') || c == '\u{2028}'
        || c == '\u{2029}' || c == '\u{202f}' || c == '\u{205f}' || c == '\u{3000}',
    ensures
        board_of(before + seq![c] + after) == board_of(before + after),
{
    delimiters_do_not_matter(before, seq![c], after);
}

/// Every other character is a cell: a text in which there is neither a bar nor whitespace
/// is a board just where it has a hundred characters, and these are its cells, row by
/// row.
pub proof fn every_other_character_is_a_cell(s: Seq<char>)
    requires
        forall|i: int|
            0 <= i < s.len() ==> {
                let c = #[trigger] s[i];
                c != '|' && !(('\u{9}' <= c && c <= '\u{d}') || c == ' '
        || c == '\u{85}' || c == '\u{a0}'
        || c == '\u{1680}' || ('\u{2000}' <= c && c <= '\u{200a}') || c == '\u{2028}'
        || c == '\u{2029}' || c == '\u{202f}' || c == '\u{205f}' || c == '\u{3000}')
            },
    ensures
        s.len() == 100 ==> board_of(s) == Some(s),
        s.len() != 100 ==> board_of(s) is None,
{
    lemma_no_delimiters(s);
}

/// A hundred characters each of which is a dot or a letter are a board with exactly these
/// cells: the cell in column `x` of row `y` is the one that stands there.
pub proof fn dots_and_letters_are_a_board(s: Seq<char>)
    requires
        s.len() == 100,
        forall|i: int|
            0 <= i < s.len() ==> {
                let c = #[trigger] s[i];
                c == '.' || ('A' <= c && c <= 'Z') || ('a' <= c && c <= 'z')
            },
    ensures
        board_of(s) == Some(s),
        forall|b: Board, x: int, y: int|
            board_of(s) == Some(b@) && 1 <= x <= 10 && 1 <= y <= 10 ==> #[trigger] b.0@[y - 1]@[x
                - 1] == s[(y - 1) * 10 + (x - 1)],
{
    every_other_character_is_a_cell(s);
    assert forall|b: Board, x: int, y: int|
        board_of(s) == Some(b@) && 1 <= x <= 10 && 1 <= y <= 10 implies #[trigger] b.0@[y - 1]@[x
        - 1] == s[(y - 1) * 10 + (x - 1)] by {
        cells_stand_row_by_row(b);
    }
}

/// Shooting at column `x` of row `y` is a hit just where the coordinates are on the board
/// and the cell there is no water.
pub proof fn a_hit_is_a_cell_that_is_no_water(cells: Seq<char>, x: int, y: int)
    ensures
        hit_at(cells, x, y) <==> 1 <= x <= 10 && 1 <= y <= 10 && cells[(y - 1) * 10 + (x - 1)]
            != '.',
{
}

/// A mark stands at its cell, and every other cell is what it was; off the board there is
/// no mark.
pub proof fn a_mark_stands_at_its_cell(cells: Seq<char>, x: int, y: int, mark: char)
    requires
        cells.len() == 100,
    ensures
        marked(cells, x, y, mark).len() == 100,
        1 <= x <= 10 && 1 <= y <= 10 ==> marked(cells, x, y, mark)[(y - 1) * 10 + (x - 1)] == mark,
        forall|i: int|
            0 <= i < 100 && !(1 <= x <= 10 && 1 <= y <= 10 && i == (y - 1) * 10 + (x - 1))
                ==> #[trigger] marked(cells, x, y, mark)[i] == cells[i],
{
}

/// Just the letters other than 'x' and 'X' are parts of ships.
pub proof fn parts_of_ships_are_letters(c: char)
    ensures
        ship_part(c) <==> (('A' <= c && c <= 'Z') || ('a' <= c && c <= 'z'))
            && c != 'x' && c != 'X',
{
}

/// Every letter other than 'x' and 'X', and nothing else, is a part of a ship: ships are
/// left just where some cell holds such a letter.
pub proof fn ships_are_letters(cells: Seq<char>)
    ensures
        ships_left(cells) <==> exists|i: int|
            0 <= i < cells.len() && {
                let c = #[trigger] cells[i];
                (('A' <= c && c <= 'Z') || ('a' <= c && c <= 'z')) && c != 'x' && c != 'X'
            },
{
    if ships_left(cells) {
        let i = choose|i: int| 0 <= i < cells.len() && ship_part(#[trigger] cells[i]);
        assert(0 <= i < cells.len());
    }
    assert forall|i: int|
        0 <= i < cells.len() && {
            let c = #[trigger] cells[i];
            (('A' <= c && c <= 'Z') || ('a' <= c && c <= 'z')) && c != 'x' && c != 'X'
        } implies ships_left(cells) by {
        assert(ship_part(cells[i]));
    }
}

/// The rows of a drawing, one after the other.
proof fn lemma_rows_in_drawing(cells: Seq<char>, n: nat)
    requires
        n <= 10,
    ensures
        drawn_rows(cells, n).len() == 25 * n,
        forall|y: int|
            1 <= y <= n ==> drawn_rows(cells, n).subrange((y - 1) * 25, y * 25)
                == #[trigger] drawn_row(cells, y),
        forall|y: int| 1 <= y <= 10 ==> (#[trigger] drawn_row(cells, y)).len() == 25,
    decreases n,
{
    reveal_strlit(" |");
    reveal_strlit("|\n");
    reveal_with_fuel(decimal, 2);
    if n > 0 {
        lemma_rows_in_drawing(cells, (n - 1) as nat);
        assert forall|y: int| 1 <= y <= n implies drawn_rows(cells, n).subrange(
            (y - 1) * 25,
            y * 25,
        ) == #[trigger] drawn_row(cells, y) by {
            if y < n {
                assert(drawn_rows(cells, n).subrange((y - 1) * 25, y * 25) =~= drawn_rows(
                    cells,
                    (n - 1) as nat,
                ).subrange((y - 1) * 25, y * 25));
            } else {
                assert(drawn_rows(cells, n).subrange((y - 1) * 25, y * 25) =~= drawn_row(
                    cells,
                    y,
                ));
            }
        }
    }
}

/// A drawing is made up of the column numbers, a rule, ten rows of 25 characters, and a
/// rule. A row holds its number in two columns, a blank and a bar; its ten cells, with a
/// blank between neighbours; and a bar and a line feed.
pub proof fn a_drawing_character_by_character(cells: Seq<char>)
    ensures
        drawing(cells).len() == 326,
        drawing(cells).subrange(0, 25) == "    1 2 3 4 5 6 7 8 9 10\n"@,
        drawing(cells).subrange(25, 51) == "   +--------------------+\n"@,
        drawing(cells).subrange(301, 326) == "   +--------------------+"@,
        forall|y: int|
            1 <= y <= 10 ==> {
                let row = #[trigger] drawing(cells).subrange(26 + y * 25, 51 + y * 25);
                &&& row[0] == (if y < 10 { ' ' } else { '1' })
                &&& row[1] == (if y < 10 { (48 + y) as char } else { '0' })
                &&& row[2] == ' '
                &&& row[3] == '|'
                &&& forall|x: int|
                    1 <= x <= 10 ==> row[2 + 2 * x] == #[trigger] cells[(y - 1) * 10 + (x - 1)]
                &&& row[5] == ' ' && row[7] == ' ' && row[9] == ' ' && row[11] == ' '
                &&& row[13] == ' ' && row[15] == ' ' && row[17] == ' ' && row[19] == ' '
                &&& row[21] == ' '
                &&& row[23] == '|'
                &&& row[24] == '\n'
            },
{
    reveal_strlit("    1 2 3 4 5 6 7 8 9 10\n");
    reveal_strlit("   +--------------------+\n");
    reveal_strlit("   +--------------------+");
    lemma_rows_in_drawing(cells, 10);
    let all = drawing(cells);
    assert(all.subrange(0, 25) =~= "    1 2 3 4 5 6 7 8 9 10\n"@);
    assert(all.subrange(25, 51) =~= "   +--------------------+\n"@);
    assert(all.subrange(301, 326) =~= "   +--------------------+"@);
    assert forall|y: int| 1 <= y <= 10 implies {
        let row = #[trigger] all.subrange(26 + y * 25, 51 + y * 25);
        &&& row[0] == (if y < 10 { ' ' } else { '1' })
        &&& row[1] == (if y < 10 { (48 + y) as char } else { '0' })
        &&& row[2] == ' '
        &&& row[3] == '|'
        &&& forall|x: int|
            1 <= x <= 10 ==> row[2 + 2 * x] == #[trigger] cells[(y - 1) * 10 + (x - 1)]
        &&& row[5] == ' ' && row[7] == ' ' && row[9] == ' ' && row[11] == ' '
        &&& row[13] == ' ' && row[15] == ' ' && row[17] == ' ' && row[19] == ' '
        &&& row[21] == ' '
        &&& row[23] == '|'
        &&& row[24] == '\n'
    } by {
        let row = all.subrange(26 + y * 25, 51 + y * 25);
        assert(drawn_row(cells, y).len() == 25);
        assert(row =~= drawn_rows(cells, 10).subrange((y - 1) * 25, y * 25));
        lemma_row(cells, y);
    }
}

/// A row of a drawing, character by character.
proof fn lemma_row(cells: Seq<char>, y: int)
    requires
        1 <= y <= 10,
    ensures
        ({
            let row = drawn_row(cells, y);
            &&& row.len() == 25
            &&& row[0] == (if y < 10 { ' ' } else { '1' })
            &&& row[1] == (if y < 10 { (48 + y) as char } else { '0' })
            &&& row[2] == ' '
            &&& row[3] == '|'
            &&& forall|i: int| 0 <= i < 19 ==> row[4 + i] == #[trigger] drawn_cells(cells, y)[i]
            &&& forall|x: int|
                1 <= x <= 10 ==> row[2 + 2 * x] == #[trigger] cells[(y - 1) * 10 + (x - 1)]
            &&& row[5] == ' ' && row[7] == ' ' && row[9] == ' ' && row[11] == ' '
            &&& row[13] == ' ' && row[15] == ' ' && row[17] == ' ' && row[19] == ' '
            &&& row[21] == ' '
            &&& row[23] == '|'
            &&& row[24] == '\n'
        }),
{
    reveal_strlit(" |");
    reveal_strlit("|\n");
    reveal_with_fuel(decimal, 2);
    let row = drawn_row(cells, y);
    let d = drawn_cells(cells, y);
    assert forall|i: int| 0 <= i < 19 implies row[4 + i] == #[trigger] d[i] by {}
    assert forall|x: int| 1 <= x <= 10 implies row[2 + 2 * x] == #[trigger] cells[(y - 1) * 10 + (
    x - 1)] by {
        assert(row[2 + 2 * x] == d[2 * x - 2]);
    }
    assert(row[5] == d[1] && row[7] == d[3] && row[9] == d[5] && row[11] == d[7]);
    assert(row[13] == d[9] && row[15] == d[11] && row[17] == d[13] && row[19] == d[15]);
    assert(row[21] == d[17]);
}

/// On a console a drawing ends in a line feed; a label, where there is one, stands in a line
/// above it.
pub proof fn a_label_stands_above_the_drawing(cells: Seq<char>, label: Seq<char>)
    ensures
        label.len() == 0 ==> labeled_drawing(cells, label) == drawing(cells) + "\n"@,
        label.len() > 0 ==> labeled_drawing(cells, label) == "--- Board: "@ + label + " ---\n"@
            + drawing(cells) + "\n"@,
{
    if label.len() == 0 {
        assert(labeled_drawing(cells, label) =~= drawing(cells) + "\n"@);
    } else {
        assert(labeled_drawing(cells, label) =~= "--- Board: "@ + label + " ---\n"@ + drawing(
            cells,
        ) + "\n"@);
    }
}

// ---------------------------------------------------------------------------
// Settings
// ---------------------------------------------------------------------------

/// What is asked for is what is used: the host as it is, and the port where it is a
/// number of 16 bits. What is not asked for, and a port that is no such number, leave
/// 127.0.0.1 and 8080.
pub proof fn what_is_asked_for_is_used(host: Seq<char>, port: Seq<char>)
    ensures
        host_of(Some(host)) == host,
        host_of(None) == "127.0.0.1"@,
        unsigned_value(port, 65535) matches Some(n) ==> port_of(Some(port)) == n,
        unsigned_value(port, 65535) is None ==> port_of(Some(port)) == 8080,
        port_of(None) == 8080,
        DEFAULT_PORT == 8080,
{
}

/// An address is the host, a colon, and the digits of the port.
pub proof fn an_address_is_host_colon_port(host: Seq<char>, port: u16)
    ensures
        addr_of(host, port).len() > host.len() + 1,
        addr_of(host, port).take(host.len() as int) == host,
        addr_of(host, port)[host.len() as int] == ':',
        addr_of(host, port).skip(host.len() + 1int) == decimal(port as nat),
{
    reveal_strlit(":");
    decimal_has_its_value(port as nat);
    assert(addr_of(host, port).take(host.len() as int) =~= host);
    assert(addr_of(host, port).skip(host.len() + 1int) =~= decimal(port as nat));
}

// ---------------------------------------------------------------------------
// Lines and messages
// ---------------------------------------------------------------------------

/// A text followed by so many of a character is the text again once it is trimmed.
proof fn lemma_trimmed_behind(text: Seq<char>, c: char, n: nat)
    requires
        text.len() > 0 ==> text.last() != c,
    ensures
        trimmed(text + Seq::new(n, |i: int| c), c) == text,
    decreases n,
{
    let s = text + Seq::new(n, |i: int| c);
    if n == 0 {
        assert(s =~= text);
        lemma_trimmed(text, c);
    } else {
        lemma_trimmed_behind(text, c, (n - 1) as nat);
        assert(s.drop_last() =~= text + Seq::new((n - 1) as nat, |i: int| c));
        assert(s.last() == c);
    }
}

/// A line is a message, and behind it carriage returns and then line feeds, any number
/// of each: all of these are taken off, and nothing else is.
pub proof fn a_line_is_a_message_and_its_end(msg: Seq<char>, crs: nat, lfs: nat)
    requires
        msg.len() > 0 ==> msg.last() != '\r',
        msg.len() > 0 && crs == 0 ==> msg.last() != '\n',
    ensures
        message_of(
            msg + Seq::new(crs, |i: int| '\r') + Seq::new(lfs, |i: int| '\n'),
        ) == msg,
{
    let front = msg + Seq::new(crs, |i: int| '\r');
    if crs > 0 {
        assert(front.last() == '\r');
    } else {
        assert(front =~= msg);
    }
    lemma_trimmed_behind(front, '\n', lfs);
    lemma_trimmed_behind(msg, '\r', crs);
}

/// A message is written as a line with one line feed behind it.
pub proof fn a_written_line_is_the_message_and_a_feed(msg: Seq<char>)
    ensures
        line_of(msg) == msg + "\n"@,
{
    reveal_strlit("\n");
    assert(line_of(msg) =~= msg + "\n"@);
}

/// How the announcements are spelled.
pub proof fn announcements_are_spelled_so(name: Seq<char>)
    ensures
        joined_text(name) == "J|"@ + name,
        next_text(name) == "N|"@ + name,
        miss_text(name) == "M|"@ + name,
        game_over_text(name) == "N|"@ + name + "|GameOver"@,
{
}

/// A message joins with a name and a board just where it is `J|<name>|<board>` and the
/// name is not empty and has no bar in it. The board may be any text.
pub proof fn a_join_is_spelled_so(msg: Seq<char>, name: Seq<char>, board: Seq<char>)
    ensures
        join_of(msg) == Some((name, board)) <==> name.len() > 0 && !name.contains('|') && msg
            == "J|"@ + name + "|"@ + board,
        join_of(msg) is Some ==> exists|n: Seq<char>, b: Seq<char>|
            n.len() > 0 && !n.contains('|') && msg == #[trigger] ("J|"@ + n + "|"@ + b),
{
    a_join_is_what_it_spells(msg);
    if name.len() > 0 && !name.contains('|') && msg == "J|"@ + name + "|"@ + board {
        a_written_join_is_read(name, board);
    }
    if join_of(msg) is Some {
        let (n, b) = join_of(msg)->0;
        assert(msg == "J|"@ + n + "|"@ + b);
    }
}

/// A message that starts with `S|`, a name that is not empty, a bar, a text, a bar and
/// another text, and ends there or goes on with a bar, is a shot just where both texts
/// are numbers, and then it is the shot at the name with these coordinates.
pub proof fn a_shot_is_spelled_so(name: Seq<char>, x: Seq<char>, y: Seq<char>, tail: Seq<char>)
    requires
        name.len() > 0,
        !name.contains('|'),
        !x.contains('|'),
        !y.contains('|'),
        tail.len() > 0 ==> tail[0] == '|',
    ensures
        shot_of("S|"@ + name + "|"@ + x + "|"@ + y + tail) == (match (
            unsigned_value(x, usize::MAX as nat),
            unsigned_value(y, usize::MAX as nat),
        ) {
            (Some(a), Some(b)) => Some(Shot { target_name: name, x: a, y: b }),
            _ => None,
        }),
{
    lemma_shot_fields(name, x, y, tail);
}

/// Every shot is spelled like that.
pub proof fn only_so_is_a_shot_spelled(msg: Seq<char>)
    ensures
        shot_of(msg) matches Some(shot) ==> shot.target_name.len() > 0
            && !shot.target_name.contains('|') && exists|
            x: Seq<char>,
            y: Seq<char>,
            tail: Seq<char>,
        |
            msg == #[trigger] ("S|"@ + shot.target_name + "|"@ + x + "|"@ + y + tail)
                && unsigned_value(x, usize::MAX as nat) == Some(shot.x)
                && unsigned_value(y, usize::MAX as nat) == Some(shot.y)
                && (tail.len() > 0 ==> tail[0] == '|'),
{
    a_shot_is_what_it_spells(msg);
    if let Some(shot) = shot_of(msg) {
        let (x, y, tail) = choose|x: Seq<char>, y: Seq<char>, tail: Seq<char>|
            spells_shot(msg, shot, x, y, tail);
        assert(msg == "S|"@ + shot.target_name + "|"@ + x + "|"@ + y + tail);
    }
}

// ---------------------------------------------------------------------------
// Clients
// ---------------------------------------------------------------------------

/// A walk meets just the clients, and none of them twice.
pub proof fn a_walk_meets_just_the_clients(order: Seq<u64>, clients: Clients)
    ensures
        walks(order, clients) <==> (forall|i: int, j: int|
            0 <= i < j < order.len() ==> #[trigger] order[i] != #[trigger] order[j]) && (forall|
            id: u64,
        | #[trigger]
            clients.contains_key(id) <==> exists|i: int|
                0 <= i < order.len() && #[trigger] order[i] == id),
{
    if walks(order, clients) {
        assert forall|id: u64| #[trigger] clients.contains_key(id) <==> exists|i: int|
            0 <= i < order.len() && #[trigger] order[i] == id by {
            assert(order.to_set().contains(id) <==> order.contains(id));
        }
    }
    if (forall|i: int, j: int|
        0 <= i < j < order.len() ==> #[trigger] order[i] != #[trigger] order[j]) && (forall|id: u64|
     #[trigger]
        clients.contains_key(id) <==> exists|i: int|
            0 <= i < order.len() && #[trigger] order[i] == id) {
        assert forall|i: int, j: int|
            0 <= i < order.len() && 0 <= j < order.len() && i != j implies order[i] != order[j] by {
            if i > j {
                assert(order[j] != order[i]);
            }
        }
        assert forall|id: u64| order.to_set().contains(id) <==> clients.dom().contains(id) by {
            assert(order.to_set().contains(id) <==> order.contains(id));
            assert(clients.contains_key(id) <==> clients.dom().contains(id));
        }
        assert(order.to_set() =~= clients.dom());
    }
}

/// A name stands for the first client of that name on the walk.
pub proof fn a_name_stands_for_the_first_that_has_it(
    order: Seq<u64>,
    clients: Clients,
    name: Seq<char>,
)
    ensures
        named(order, clients, name) matches Some(id) ==> exists|k: int|
            0 <= k < order.len() && #[trigger] order[k] == id && clients[id].name == name && (
            forall|j: int| 0 <= j < k ==> clients[#[trigger] order[j]].name != name),
        named(order, clients, name) is None ==> forall|j: int|
            0 <= j < order.len() ==> clients[#[trigger] order[j]].name != name,
        forall|k: int|
            0 <= k < order.len() && clients[#[trigger] order[k]].name == name && (forall|j: int|
                0 <= j < k ==> clients[#[trigger] order[j]].name != name) ==> named(
                order,
                clients,
                name,
            ) == Some(order[k]),
    decreases order.len(),
{
    if order.len() > 0 {
        if clients[order[0]].name != name {
            let rest = order.skip(1);
            a_name_stands_for_the_first_that_has_it(rest, clients, name);
            assert(forall|j: int| 0 <= j < rest.len() ==> #[trigger] rest[j] == order[j + 1]);
            assert(forall|j: int| 1 <= j < order.len() ==> #[trigger] order[j] == rest[j - 1]);
            if let Some(id) = named(rest, clients, name) {
                let k = choose|k: int|
                    0 <= k < rest.len() && #[trigger] rest[k] == id && clients[id].name == name && (
                    forall|j: int| 0 <= j < k ==> clients[#[trigger] rest[j]].name != name);
                assert(order[k + 1] == id);
                assert forall|j: int| 0 <= j < k + 1 implies clients[#[trigger] order[j]].name
                    != name by {
                    if j > 0 {
                        assert(order[j] == rest[j - 1]);
                    }
                }
            }
            assert forall|k: int|
                0 <= k < order.len() && clients[#[trigger] order[k]].name == name && (forall|
                    j: int,
                |
                    0 <= j < k ==> clients[#[trigger] order[j]].name != name) implies named(
                order,
                clients,
                name,
            ) == Some(order[k]) by {
                assert(k > 0);
                assert(rest[k - 1] == order[k]);
                assert forall|j: int| 0 <= j < k - 1 implies clients[#[trigger] rest[j]].name
                    != name by {
                    assert(rest[j] == order[j + 1]);
                }
            }
        } else {
            assert(order[0] == named(order, clients, name)->0);
            assert forall|k: int|
                0 <= k < order.len() && clients[#[trigger] order[k]].name == name && (forall|
                    j: int,
                |
                    0 <= j < k ==> clients[#[trigger] order[j]].name != name) implies named(
                order,
                clients,
                name,
            ) == Some(order[k]) by {
                if k > 0 {
                    assert(clients[order[0]].name != name);
                }
            }
        }
    }
}

/// The first joiner is the first on the walk of those that nobody joined before.
pub proof fn the_first_joiner_is_the_earliest(order: Seq<u64>, clients: Clients)
    ensures
        order.len() == 0 <==> first_joiner(order, clients) is None,
        first_joiner(order, clients) matches Some(id) ==> exists|k: int|
            0 <= k < order.len() && #[trigger] order[k] == id && (forall|j: int|
                0 <= j < k ==> clients[id].joined_at < clients[#[trigger] order[j]].joined_at) && (
            forall|j: int|
                0 <= j < order.len() ==> clients[id].joined_at
                    <= clients[#[trigger] order[j]].joined_at),
{
    lemma_first_joiner(order, clients);
}

/// What is known of a client is what was entered for it, and what is known of a shot is
/// what was commanded.
pub proof fn nothing_is_lost_in_entering(info: ClientInfo, shot: ShotCommand)
    ensures
        info@.name == info.name@,
        info@.board_str == info.board_str@,
        info@.joined_at == info.joined_at,
        info.board matches Some(b) ==> info@.board == Some(b@),
        info.board is None ==> info@.board is None,
        shot@.target_name == shot.target_name@,
        shot@.x == shot.x,
        shot@.y == shot.y,
{
}

// ---------------------------------------------------------------------------
// Joining
// ---------------------------------------------------------------------------

/// The roster is one `J|<name>` for each client, in the order of the walk.
pub proof fn the_roster_names_everyone(order: Seq<u64>, clients: Clients)
    ensures
        roster(order, clients).len() == order.len(),
        forall|i: int|
            0 <= i < order.len() ==> #[trigger] roster(order, clients)[i] == "J|"@
                + clients[order[i]].name,
{
}

/// When somebody new has joined, the roster is announced; behind it, just where there are
/// then two clients, that the one who joined first is next.
pub proof fn two_players_start_the_game(order: Seq<u64>, clients: Clients)
    requires
        walks(order, clients),
    ensures
        clients.len() == order.len(),
        forall|i: int|
            0 <= i < order.len() ==> #[trigger] join_broadcasts(order, clients)[i] == "J|"@
                + clients[order[i]].name,
        clients.len() != 2 ==> join_broadcasts(order, clients).len() == clients.len(),
        clients.len() == 2 ==> join_broadcasts(order, clients).len() == 3
            && join_broadcasts(order, clients)[2] == "N|"@ + (if clients[order[1]].joined_at
            < clients[order[0]].joined_at {
            clients[order[1]].name
        } else {
            clients[order[0]].name
        }),
{
    a_walk_meets_every_client(order, clients);
    lemma_first_joiner(order, clients);
}

/// A join enters the client with what it sent: its name, the text of its board, the board
/// that this text is, and the moment. It is entered before the clients are walked; on
/// any other message the clients are walked as they are.
pub proof fn a_join_enters_what_was_sent(clients: Clients, id: u64, line: String, now: u64)
    ensures
        join_of(message_of(line@)) matches Some((name, board_str)) ==> {
            let joined = clients.insert(
                id,
                Client { name, board_str, board: board_of(board_str), joined_at: now },
            );
            &&& joining(name, board_str, now) == joined[id]
            &&& enrolled(clients, id, message_of(line@), now) == joined
            &&& walked(clients, id, Event::Line(line), now) == joined
        },
        join_of(message_of(line@)) is None ==> {
            &&& enrolled(clients, id, message_of(line@), now) == clients
            &&& walked(clients, id, Event::Line(line), now) == clients
        },
{
}

/// A client joins. Whatever its board and however many clients there are, everyone is told
/// `J|<name>` of every client there now is. Behind it, just where the client was not there
/// before and there are now two, comes `N|<name>` of the one that joined first. The board
/// is shown, where it is one.
pub proof fn joining_announces_everyone(
    clients: Clients,
    order: Seq<u64>,
    id: u64,
    peer: Seq<char>,
    line: String,
    now: u64,
    name: Seq<char>,
    board_str: Seq<char>,
)
    requires
        join_of(message_of(line@)) == Some((name, board_str)),
        walks(order, walked(clients, id, Event::Line(line), now)),
    ensures
        ({
            let joined = clients.insert(
                id,
                Client { name, board_str, board: board_of(board_str), joined_at: now },
            );
            let (after, it) = effect(clients, order, id, peer, message_of(line@), now);
            &&& outcome(clients, order, id, peer, Event::Line(line), now) == (
                joined,
                Deed::React(it),
            )
            &&& after == joined
            &&& !it.ends_game()
            &&& it matches Effect::Joined { name: called, shown, broadcasts } && called == name
                && broadcasts == it.broadcasts() && shown == (match board_of(board_str) {
                Some(cells) => Some(
                    labeled_drawing(cells, "Client "@ + name + " ("@ + peer + ") joined"@),
                ),
                None => None,
            })
            &&& joined.len() == order.len()
            &&& forall|i: int|
                0 <= i < order.len() ==> #[trigger] it.broadcasts()[i] == "J|"@
                    + joined[order[i]].name
            &&& forall|c: u64| #[trigger]
                joined.contains_key(c) ==> exists|i: int|
                    0 <= i < order.len() && #[trigger] order[i] == c
            &&& !clients.contains_key(id) && joined.len() == 2 ==> it.broadcasts().len() == 3
                && it.broadcasts()[2] == "N|"@ + (if joined[order[1]].joined_at
                < joined[order[0]].joined_at {
                joined[order[1]].name
            } else {
                joined[order[0]].name
            })
            &&& clients.contains_key(id) || joined.len() != 2 ==> it.broadcasts().len()
                == order.len()
        }),
{
    let joined = clients.insert(
        id,
        Client { name, board_str, board: board_of(board_str), joined_at: now },
    );
    a_join_is_what_it_spells(message_of(line@));
    reveal_strlit("J|");
    assert(message_of(line@).len() > 0);
    a_walk_meets_every_client(order, joined);
    two_players_start_the_game(order, joined);
    the_roster_names_everyone(order, joined);
}

// ---------------------------------------------------------------------------
// Shooting
// ---------------------------------------------------------------------------

/// A client shoots under its name, and one that has not joined as `Unknown`.
pub proof fn a_client_shoots_under_its_name(clients: Clients, id: u64)
    ensures
        clients.contains_key(id) ==> shooter_name(clients, id) == clients[id].name,
        !clients.contains_key(id) ==> shooter_name(clients, id) == "Unknown"@,
{
}

/// A shot at nobody, or at a client without a board, changes nothing and is a miss.
pub proof fn a_shot_at_no_board_misses(
    clients: Clients,
    target: Option<u64>,
    shooter: Seq<char>,
    shot: Shot,
    msg: Seq<char>,
)
    requires
        target matches Some(id) ==> clients[id].board is None,
    ensures
        ({
            let cells = defended(clients, target);
            &&& clients_after_shot(clients, target, shot) == clients
            &&& !hits(cells, shot)
            &&& !wins(cells, shot)
            &&& shown_after_shot(cells, shot) is None
            &&& shot_broadcasts(msg, shooter, cells, shot) == seq![
                msg,
                "M|"@ + shot.target_name,
                "N|"@ + shot.target_name,
            ]
        }),
{
}

/// A shot off the target's board changes nothing, one at a cell with a dot leaves a '-'
/// there and nothing else; either is a miss.
pub proof fn a_shot_into_the_water_misses(
    clients: Clients,
    id: u64,
    cells: Seq<char>,
    shooter: Seq<char>,
    shot: Shot,
    msg: Seq<char>,
)
    requires
        clients.contains_key(id),
        clients[id].board == Some(cells),
        cells.len() == 100,
        1 <= shot.x <= 10 && 1 <= shot.y <= 10 ==> cells[(shot.y - 1) * 10 + (shot.x - 1)] == '.',
    ensures
        ({
            let (c, defends) = (clients[id], defended(clients, Some(id)));
            let spot = (shot.y - 1) * 10 + (shot.x - 1);
            &&& defends == Some(cells)
            &&& clients_after_shot(clients, Some(id), shot) == (if 1 <= shot.x <= 10 && 1
                <= shot.y <= 10 {
                clients.insert(
                    id,
                    Client {
                        name: c.name,
                        board_str: c.board_str,
                        board: Some(cells.update(spot, '-')),
                        joined_at: c.joined_at,
                    },
                )
            } else {
                clients
            })
            &&& !hits(defends, shot)
            &&& !wins(defends, shot)
            &&& shown_after_shot(defends, shot) is None
            &&& shot_broadcasts(msg, shooter, defends, shot) == seq![
                msg,
                "M|"@ + shot.target_name,
                "N|"@ + shot.target_name,
            ]
        }),
{
    let spot = (shot.y - 1) * 10 + (shot.x - 1);
    if 1 <= shot.x <= 10 && 1 <= shot.y <= 10 {
        assert(after_shot(cells, shot) =~= cells.update(spot, '-'));
    } else {
        assert(after_shot(cells, shot) =~= cells);
        assert(clients_after_shot(clients, Some(id), shot) =~= clients);
    }
}

/// A shot at any cell without a dot is a hit: it leaves an 'x' there and nothing else, and
/// the board is shown. The game goes on with the target's turn just where another cell
/// still holds a letter other than 'x' and 'X'; where none does, the shooter has won.
pub proof fn a_shot_at_anything_else_hits(
    clients: Clients,
    id: u64,
    cells: Seq<char>,
    shooter: Seq<char>,
    shot: Shot,
    msg: Seq<char>,
)
    requires
        clients.contains_key(id),
        clients[id].board == Some(cells),
        cells.len() == 100,
        1 <= shot.x <= 10 && 1 <= shot.y <= 10,
        cells[(shot.y - 1) * 10 + (shot.x - 1)] != '.',
    ensures
        ({
            let (c, defends) = (clients[id], defended(clients, Some(id)));
            let spot = (shot.y - 1) * 10 + (shot.x - 1);
            let goes_on = exists|i: int|
                0 <= i < 100 && i != spot && {
                    let c = #[trigger] cells[i];
                    (('A' <= c && c <= 'Z') || ('a' <= c && c <= 'z')) && c != 'x' && c != 'X'
                };
            &&& defends == Some(cells)
            &&& clients_after_shot(clients, Some(id), shot) == clients.insert(
                id,
                Client {
                    name: c.name,
                    board_str: c.board_str,
                    board: Some(cells.update(spot, 'x')),
                    joined_at: c.joined_at,
                },
            )
            &&& hits(defends, shot)
            &&& wins(defends, shot) <==> !goes_on
            &&& shown_after_shot(defends, shot) == Some(
                labeled_drawing(
                    cells.update(spot, 'x'),
                    "HIT on "@ + shot.target_name + " at ("@ + decimal(shot.x) + ", "@ + decimal(
                        shot.y,
                    ) + ")"@,
                ),
            )
            &&& goes_on ==> shot_broadcasts(msg, shooter, defends, shot) == seq![
                msg,
                "N|"@ + shot.target_name,
            ]
            &&& !goes_on ==> shot_broadcasts(msg, shooter, defends, shot) == seq![
                msg,
                "N|"@ + shooter + "|GameOver"@,
            ]
        }),
{
    let spot = (shot.y - 1) * 10 + (shot.x - 1);
    let hit = cells.update(spot, 'x');
    assert(after_shot(cells, shot) =~= hit);
    ships_are_letters(hit);
    if ships_left(hit) {
        let i = choose|i: int|
            0 <= i < hit.len() && {
                let c = #[trigger] hit[i];
                (('A' <= c && c <= 'Z') || ('a' <= c && c <= 'z')) && c != 'x' && c != 'X'
            };
        assert(i != spot);
        assert(cells[i] == hit[i]);
    }
    assert forall|i: int|
        0 <= i < 100 && i != spot && {
            let c = #[trigger] cells[i];
            (('A' <= c && c <= 'Z') || ('a' <= c && c <= 'z')) && c != 'x' && c != 'X'
        } implies ships_left(hit) by {
        assert(hit[i] == cells[i]);
    }
}

/// A client sends a shot at a name that nobody has: nothing changes, and everyone is told
/// the command, the miss and that the name is next.
pub proof fn shooting_at_a_stranger(
    clients: Clients,
    order: Seq<u64>,
    id: u64,
    peer: Seq<char>,
    line: String,
    now: u64,
    shot: Shot,
)
    requires
        shot_of(message_of(line@)) == Some(shot),
        walks(order, walked(clients, id, Event::Line(line), now)),
        forall|c: u64| #[trigger]
            clients.contains_key(c) ==> clients[c].name != shot.target_name,
    ensures
        ({
            let msg = message_of(line@);
            let it = Effect::Fired {
                shot,
                hit: false,
                game_over: false,
                shown: None,
                broadcasts: seq![msg, "M|"@ + shot.target_name, "N|"@ + shot.target_name],
            };
            &&& effect(clients, order, id, peer, msg, now) == (clients, it)
            &&& outcome(clients, order, id, peer, Event::Line(line), now) == (
                clients,
                Deed::React(it),
            )
        }),
{
    let msg = message_of(line@);
    lemma_shot_message(msg);
    a_walk_meets_every_client(order, clients);
    a_name_stands_for_the_first_that_has_it(order, clients, shot.target_name);
    a_shot_at_no_board_misses(clients, None, shooter_name(clients, id), shot, msg);
}

/// A message that is a shot is not empty and no join.
proof fn lemma_shot_message(msg: Seq<char>)
    requires
        shot_of(msg) is Some,
    ensures
        msg.len() > 0,
        join_of(msg) is None,
{
    no_join_is_a_shot(msg);
    a_shot_is_what_it_spells(msg);
    reveal_strlit("S|");
}

/// A client sends a shot at a name. The target is the first client of that name on the walk.
/// Where it has no board, where the shot goes off the board and where the cell holds a dot,
/// everyone is told the command, the miss and that the target is next. Where the cell
/// holds anything else, everyone is told the command and that the target is next; but
/// where no other cell of the target holds a letter other than 'x' and 'X', the command and
/// that the shooter has won. No cell changes but the one that was shot at.
pub proof fn shooting_at_a_client(
    clients: Clients,
    order: Seq<u64>,
    id: u64,
    peer: Seq<char>,
    line: String,
    now: u64,
    shot: Shot,
    k: int,
)
    requires
        shot_of(message_of(line@)) == Some(shot),
        walks(order, walked(clients, id, Event::Line(line), now)),
        0 <= k < order.len(),
        clients[order[k]].name == shot.target_name,
        forall|j: int| 0 <= j < k ==> clients[#[trigger] order[j]].name != shot.target_name,
        clients[order[k]].board matches Some(cells) ==> cells.len() == 100,
    ensures
        ({
            let msg = message_of(line@);
            let target = order[k];
            let called = shot.target_name;
            let spot = (shot.y - 1) * 10 + (shot.x - 1);
            let (after, it) = effect(clients, order, id, peer, msg, now);
            let missed = seq![msg, "M|"@ + called, "N|"@ + called];
            let with = |cells: Seq<char>|
                clients.insert(
                    target,
                    Client {
                        name: called,
                        board_str: clients[target].board_str,
                        board: Some(cells),
                        joined_at: clients[target].joined_at,
                    },
                );
            &&& outcome(clients, order, id, peer, Event::Line(line), now) == (
                after,
                Deed::React(it),
            )
            &&& clients.contains_key(target)
            &&& match clients[target].board {
                None => after == clients && it == (Effect::Fired {
                    shot,
                    hit: false,
                    game_over: false,
                    shown: None,
                    broadcasts: missed,
                }),
                Some(cells) => {
                    let on = 1 <= shot.x <= 10 && 1 <= shot.y <= 10;
                    let goes_on = exists|i: int|
                        0 <= i < 100 && i != spot && {
                            let c = #[trigger] cells[i];
                            (('A' <= c && c <= 'Z') || ('a' <= c && c <= 'z'))
                                && c != 'x' && c != 'X'
                        };
                    let shown = Some(
                        labeled_drawing(
                            cells.update(spot, 'x'),
                            "HIT on "@ + called + " at ("@ + decimal(shot.x) + ", "@ + decimal(
                                shot.y,
                            ) + ")"@,
                        ),
                    );
                    &&& !on ==> after == clients
                    &&& on && cells[spot] == '.' ==> after == with(cells.update(spot, '-'))
                    &&& on && cells[spot] != '.' ==> after == with(cells.update(spot, 'x'))
                    &&& !on || cells[spot] == '.' ==> it == (Effect::Fired {
                        shot,
                        hit: false,
                        game_over: false,
                        shown: None,
                        broadcasts: missed,
                    })
                    &&& on && cells[spot] != '.' && goes_on ==> it == (Effect::Fired {
                        shot,
                        hit: true,
                        game_over: false,
                        shown,
                        broadcasts: seq![msg, "N|"@ + called],
                    })
                    &&& on && cells[spot] != '.' && !goes_on ==> it == (Effect::Fired {
                        shot,
                        hit: true,
                        game_over: true,
                        shown,
                        broadcasts: seq![
                            msg,
                            "N|"@ + (if clients.contains_key(id) {
                                clients[id].name
                            } else {
                                "Unknown"@
                            }) + "|GameOver"@,
                        ],
                    })
                },
            }
        }),
{
    let msg = message_of(line@);
    let target = order[k];
    let shooter = shooter_name(clients, id);
    lemma_shot_message(msg);
    a_walk_meets_every_client(order, clients);
    a_name_stands_for_the_first_that_has_it(order, clients, shot.target_name);
    assert(named(order, clients, shot.target_name) == Some(target));
    match clients[target].board {
        None => {
            a_shot_at_no_board_misses(clients, Some(target), shooter, shot, msg);
        },
        Some(cells) => {
            if 1 <= shot.x <= 10 && 1 <= shot.y <= 10 && cells[(shot.y - 1) * 10 + (shot.x - 1)]
                != '.' {
                a_shot_at_anything_else_hits(clients, target, cells, shooter, shot, msg);
            } else {
                a_shot_into_the_water_misses(clients, target, cells, shooter, shot, msg);
            }
        },
    }
}

// ---------------------------------------------------------------------------
// Events
// ---------------------------------------------------------------------------

/// A line without a message is all that is passed over: every other line is reacted to
/// with what its message brings about. A message that is neither a join nor a shot is
/// announced to everyone exactly as it is, and changes nothing.
pub proof fn every_message_is_reacted_to(
    clients: Clients,
    order: Seq<u64>,
    id: u64,
    peer: Seq<char>,
    line: String,
    now: u64,
)
    ensures
        ({
            let msg = message_of(line@);
            let (after, deed) = outcome(clients, order, id, peer, Event::Line(line), now);
            let (changed, it) = effect(clients, order, id, peer, msg, now);
            &&& deed is Wait <==> msg.len() == 0
            &&& msg.len() == 0 ==> after == clients
            &&& msg.len() > 0 ==> after == changed && deed == Deed::React(it)
            &&& join_of(msg) is None && shot_of(msg) is None ==> changed == clients && it == (
            Effect::Relayed { msg }) && it.broadcasts() == seq![msg]
        }),
{
}

/// Whatever does not start with `J|` or `S|` is chat: sent on a line of its own, it is
/// announced to everyone exactly as it is.
pub proof fn chat_goes_to_everyone(
    clients: Clients,
    order: Seq<u64>,
    id: u64,
    peer: Seq<char>,
    line: String,
    now: u64,
    text: Seq<char>,
)
    requires
        line@ == text + "\n"@ || line@ == text + "\r\n"@ || line@ == text,
        text.len() > 0,
        text.last() != '\r' && text.last() != '\n',
        text.len() >= 2 ==> !((text[0] == 'J' || text[0] == 'S') && text[1] == '|'),
    ensures
        outcome(clients, order, id, peer, Event::Line(line), now) == (
            clients,
            Deed::React(Effect::Relayed { msg: text }),
        ),
{
    reveal_strlit("\n");
    reveal_strlit("\r\n");
    reveal_strlit("J|");
    reveal_strlit("S|");
    a_line_is_a_message_and_its_end(text, 0, 0);
    a_line_is_a_message_and_its_end(text, 0, 1);
    a_line_is_a_message_and_its_end(text, 1, 1);
    assert(text =~= text + Seq::new(0, |i: int| '\r') + Seq::new(0, |i: int| '\n'));
    assert(text + "\n"@ =~= text + Seq::new(0, |i: int| '\r') + Seq::new(1, |i: int| '\n'));
    assert(text + "\r\n"@ =~= text + Seq::new(1, |i: int| '\r') + Seq::new(1, |i: int| '\n'));
    assert(message_of(line@) == text);
    a_join_is_what_it_spells(text);
    a_shot_is_what_it_spells(text);
}

/// The end of the connection takes the client out, and nobody else, and closes the
/// connection. An announcement is written to the client with one line feed behind it, and
/// lost ones are passed over; neither changes anything. On none of these events is anyone
/// else walked than the clients there are.
pub proof fn events_besides_lines(
    clients: Clients,
    order: Seq<u64>,
    id: u64,
    peer: Seq<char>,
    said: String,
    lost: u64,
    now: u64,
)
    ensures
        outcome(clients, order, id, peer, Event::EndOfStream, now) == (
            clients.remove(id),
            Deed::Close,
        ),
        outcome(clients, order, id, peer, Event::Failure, now) == (clients.remove(id), Deed::Close),
        outcome(clients, order, id, peer, Event::Closed, now) == (clients.remove(id), Deed::Close),
        outcome(clients, order, id, peer, Event::Announced(said), now) == (
            clients,
            Deed::Write(said@ + "\n"@),
        ),
        outcome(clients, order, id, peer, Event::Lagged(lost), now) == (clients, Deed::Wait),
        walked(clients, id, Event::EndOfStream, now) == clients,
        walked(clients, id, Event::Failure, now) == clients,
        walked(clients, id, Event::Closed, now) == clients,
        walked(clients, id, Event::Announced(said), now) == clients,
        walked(clients, id, Event::Lagged(lost), now) == clients,
{
    a_written_line_is_the_message_and_a_feed(said@);
}

/// What is announced on account of a message, and whether the game has ended, is what the
/// reaction to it holds, string by string; and what is to be done is what the step holds.
pub proof fn nothing_is_lost_in_reacting(reaction: Reaction, step: Step)
    ensures
        match reaction {
            Reaction::Joined { name, shown, broadcasts } => {
                &&& reaction@ matches Effect::Joined { name: n, shown: s, broadcasts: b } && n
                    == name@ && s == shown.deep_view() && b == reaction@.broadcasts()
                &&& reaction@.broadcasts().len() == broadcasts@.len()
                &&& forall|i: int|
                    0 <= i < broadcasts@.len() ==> #[trigger] reaction@.broadcasts()[i]
                        == broadcasts@[i]@
                &&& !reaction@.ends_game()
            },
            Reaction::Fired { shot, report } => {
                &&& reaction@ matches Effect::Fired { shot: f, hit, game_over, shown,
                    broadcasts: b }
                    && f == shot@ && hit == report.hit && game_over == report.game_over && shown
                    == report.shown.deep_view() && b == reaction@.broadcasts()
                &&& reaction@.broadcasts().len() == report.broadcasts@.len()
                &&& forall|i: int|
                    0 <= i < report.broadcasts@.len() ==> #[trigger] reaction@.broadcasts()[i]
                        == report.broadcasts@[i]@
                &&& reaction@.ends_game() == report.game_over
            },
            Reaction::Relayed { msg } => {
                &&& reaction@ == (Effect::Relayed { msg: msg@ })
                &&& reaction@.broadcasts() == seq![msg@]
                &&& !reaction@.ends_game()
            },
        },
        match step {
            Step::Wait => step@ == Deed::Wait,
            Step::React(r) => step@ == Deed::React(r@),
            Step::Write(text) => step@ == Deed::Write(text@),
            Step::Close => step@ == Deed::Close,
        },
{
}

} // verus!
