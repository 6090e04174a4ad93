//! What comes of calling the library, whatever it does inside: each statement is about the
//! arguments of a call and what it hands back.
use vstd::prelude::*;

use crate::board::Board;
use crate::board::{board_of, drawing, labeled_drawing};
use crate::config::Config;
use crate::game::{announce_join, announce_roster, find_target, fire, react};
use crate::game::{effect, enrolled, shooter_name, Reaction, ShotReport};
use crate::laws::{
    a_bar_or_whitespace_is_no_cell, a_client_shoots_under_its_name,
    a_hit_is_a_cell_that_is_no_water, a_join_enters_what_was_sent, a_join_is_spelled_so,
    a_line_is_a_message_and_its_end,
    a_mark_stands_at_its_cell, a_name_stands_for_the_first_that_has_it,
    a_shot_at_anything_else_hits, a_shot_at_no_board_misses, a_shot_into_the_water_misses,
    a_shot_is_spelled_so, cells_stand_row_by_row, chat_goes_to_everyone,
    every_message_is_reacted_to, every_other_character_is_a_cell, events_besides_lines,
    joining_announces_everyone, only_so_is_a_shot_spelled, ships_are_letters,
    texts_are_what_the_strings_hold,
    shooting_at_a_client, the_roster_names_everyone, two_players_start_the_game,
};
use crate::protocol::{
    game_over_message, greeting, joined_message, miss_message, next_message, parse_join,
    parse_shot, read_message, write_message, ShotCommand,
};
use crate::protocol::{message_of, no_join_is_a_shot, shot_of, Shot};
use crate::registry::{a_walk_meets_every_client, walks};
use crate::registry::{Client, ClientInfo, Registry};
use crate::session::{connected, step};
use crate::session::{outcome, walked, Event, Step};
use crate::text::is_whitespace;
use crate::text::{decimal, texts, unsigned_value};

verus! {

// ---------------------------------------------------------------------------
// Boards
// ---------------------------------------------------------------------------

/// A text with neither a bar nor whitespace in it is parsed just where it has a hundred
/// characters. The cell in column `x` of row `y` is then the one that stands there.
pub proof fn calling_parse_on_cells(s: &str, r: Option<Board>)
    requires
        call_ensures(Board::parse, (s,), r),
        forall|i: int|
            0 <= i < s@.len() ==> {
                let c = #[trigger] s@[i];
                c != '|' && !(('\u{9}' <= c && c <= '\u{d}') || c == ' '
        || c == '\u{85}' || c == '\u{a0}'
        || c == '\u{1680}' || ('\u{2000}' <= c && c <= '\u{200a}') || c == '\u{2028}'
        || c == '\u{2029}' || c == '\u{202f}' || c == '\u{205f}' || c == '\u{3000}')
            },
    ensures
        r is Some <==> s@.len() == 100,
        r matches Some(b) ==> forall|x: int, y: int|
            1 <= x <= 10 && 1 <= y <= 10 ==> #[trigger] b.0@[y - 1]@[x - 1] == s@[(y - 1) * 10 + (x
                - 1)],
{
    every_other_character_is_a_cell(s@);
    if let Some(b) = r {
        cells_stand_row_by_row(b);
    }
}

/// A bar or a whitespace character more in the text makes no difference.
pub proof fn calling_parse_with_a_delimiter_more(
    with: &str,
    without: &str,
    before: Seq<char>,
    c: char,
    after: Seq<char>,
    r1: Option<Board>,
    r2: Option<Board>,
)
    requires
        call_ensures(Board::parse, (with,), r1),
        call_ensures(Board::parse, (without,), r2),
        c == '|' || ('\u{9}' <= c && c <= '\u{d}') || c == ' ' || c == '\u{85}' || c == '\u{a0}'
        || c == '\u{1680}' || ('\u{2000}' <= c && c <= '\u{200a}') || c == '\u{2028}'
        || c == '\u{2029}' || c == '\u{202f}' || c == '\u{205f}' || c == '\u{3000}',
        with@ == before + seq![c] + after,
        without@ == before + after,
    ensures
        match (r1, r2) {
            (Some(b1), Some(b2)) => forall|x: int, y: int|
                1 <= x <= 10 && 1 <= y <= 10 ==> #[trigger] b1.0@[y - 1]@[x - 1] == b2.0@[y
                    - 1]@[x - 1],
            (None, None) => true,
            _ => false,
        },
{
    a_bar_or_whitespace_is_no_cell(before, c, after);
    if r1 is Some {
        let (b1, b2) = (r1->0, r2->0);
        cells_stand_row_by_row(b1);
        cells_stand_row_by_row(b2);
        assert forall|x: int, y: int| 1 <= x <= 10 && 1 <= y <= 10 implies #[trigger] b1.0@[y
            - 1]@[x - 1] == b2.0@[y - 1]@[x - 1] by {
            assert(b1@[(y - 1) * 10 + (x - 1)] == b2@[(y - 1) * 10 + (x - 1)]);
            assert(b2.0@[y - 1]@[x - 1] == b2@[(y - 1) * 10 + (x - 1)]);
        }
    }
}

/// `is_hit` is true just of the cells on the board that hold no dot.
pub proof fn calling_is_hit(b: Board, x: usize, y: usize, r: bool)
    requires
        call_ensures(Board::is_hit, (&b, x, y), r),
    ensures
        r <==> 1 <= x <= 10 && 1 <= y <= 10 && b.0@[y - 1]@[x - 1] != '.',
{
    a_hit_is_a_cell_that_is_no_water(b@, x as int, y as int);
    cells_stand_row_by_row(b);
}

/// `set_hit` leaves an 'x' and `set_miss` a '-' at the cell, where it is on the board, and
/// every other cell as it was.
pub proof fn calling_set_hit_and_set_miss(
    hit: &mut Board,
    missed: &mut Board,
    x: usize,
    y: usize,
    r1: (),
    r2: (),
)
    requires
        call_ensures(Board::set_hit, (hit, x, y), r1),
        call_ensures(Board::set_miss, (missed, x, y), r2),
    ensures
        forall|i: int, j: int|
            1 <= i <= 10 && 1 <= j <= 10 ==> #[trigger] final(hit).0@[j - 1]@[i - 1] == (if i == x
                && j == y {
                'x'
            } else {
                old(hit).0@[j - 1]@[i - 1]
            }),
        forall|i: int, j: int|
            1 <= i <= 10 && 1 <= j <= 10 ==> #[trigger] final(missed).0@[j - 1]@[i - 1] == (if i
                == x && j == y {
                '-'
            } else {
                old(missed).0@[j - 1]@[i - 1]
            }),
{
    let (h1, h2) = (*old(hit), *final(hit));
    let (m1, m2) = (*old(missed), *final(missed));
    a_mark_stands_at_its_cell(h1@, x as int, y as int, 'x');
    a_mark_stands_at_its_cell(m1@, x as int, y as int, '-');
    cells_stand_row_by_row(h1);
    cells_stand_row_by_row(h2);
    cells_stand_row_by_row(m1);
    cells_stand_row_by_row(m2);
    assert forall|i: int, j: int| 1 <= i <= 10 && 1 <= j <= 10 implies #[trigger] h2.0@[j - 1]@[i
        - 1] == (if i == x && j == y {
        'x'
    } else {
        h1.0@[j - 1]@[i - 1]
    }) by {
        let at = (j - 1) * 10 + (i - 1);
        assert(h2@[at] == h2.0@[j - 1]@[i - 1]);
        assert(h1@[at] == h1.0@[j - 1]@[i - 1]);
    }
    assert forall|i: int, j: int| 1 <= i <= 10 && 1 <= j <= 10 implies #[trigger] m2.0@[j - 1]@[i
        - 1] == (if i == x && j == y {
        '-'
    } else {
        m1.0@[j - 1]@[i - 1]
    }) by {
        let at = (j - 1) * 10 + (i - 1);
        assert(m2@[at] == m2.0@[j - 1]@[i - 1]);
        assert(m1@[at] == m1.0@[j - 1]@[i - 1]);
    }
}

/// `has_remaining_letters` is true just where some cell holds a letter other than 'x' and
/// 'X'.
pub proof fn calling_has_remaining_letters(b: Board, r: bool)
    requires
        call_ensures(Board::has_remaining_letters, (&b,), r),
    ensures
        r <==> exists|x: int, y: int|
            1 <= x <= 10 && 1 <= y <= 10 && {
                let c = #[trigger] b.0@[y - 1]@[x - 1];
                (('A' <= c && c <= 'Z') || ('a' <= c && c <= 'z')) && c != 'x' && c != 'X'
            },
{
    ships_are_letters(b@);
    cells_stand_row_by_row(b);
    if r {
        let i = choose|i: int|
            0 <= i < b@.len() && {
                let c = #[trigger] b@[i];
                (('A' <= c && c <= 'Z') || ('a' <= c && c <= 'z')) && c != 'x' && c != 'X'
            };
        let (x, y) = (i % 10 + 1, i / 10 + 1);
        assert(b.0@[y - 1]@[x - 1] == b@[i]);
    }
    assert forall|x: int, y: int|
        1 <= x <= 10 && 1 <= y <= 10 && {
            let c = #[trigger] b.0@[y - 1]@[x - 1];
            (('A' <= c && c <= 'Z') || ('a' <= c && c <= 'z')) && c != 'x' && c != 'X'
        } implies r by {
        assert(b@[(y - 1) * 10 + (x - 1)] == b.0@[y - 1]@[x - 1]);
    }
}

/// A board is written as its drawing, and for a console with its label above it.
pub proof fn calling_the_drawers(b: Board, label: &str, plain: String, labeled: String)
    requires
        call_ensures(Board::to_ascii_string, (&b,), plain),
        call_ensures(Board::to_labeled_string, (&b, label), labeled),
    ensures
        plain@ == drawing(b@),
        label@.len() == 0 ==> labeled@ == plain@ + "\n"@,
        label@.len() > 0 ==> labeled@ == "--- Board: "@ + label@ + " ---\n"@ + plain@ + "\n"@,
{
    if label@.len() == 0 {
        assert(labeled@ =~= plain@ + "\n"@);
    } else {
        assert(labeled@ =~= "--- Board: "@ + label@ + " ---\n"@ + plain@ + "\n"@);
    }
}

/// `is_whitespace` knows the whitespace of Unicode.
pub proof fn calling_is_whitespace(c: char, r: bool)
    requires
        call_ensures(is_whitespace, (c,), r),
    ensures
        r <==> ('\u{9}' <= c && c <= '\u{d}') || c == ' ' || c == '\u{85}' || c == '\u{a0}'
        || c == '\u{1680}' || ('\u{2000}' <= c && c <= '\u{200a}') || c == '\u{2028}'
        || c == '\u{2029}' || c == '\u{202f}' || c == '\u{205f}' || c == '\u{3000}',
{
}

// ---------------------------------------------------------------------------
// Messages and settings
// ---------------------------------------------------------------------------

/// A message is parsed as a join just where it is `J|<name>|<board>`, with a name that is
/// not empty and has no bar in it, and then to this name and this board.
pub proof fn calling_parse_join(
    msg: &str,
    name: Seq<char>,
    board: Seq<char>,
    r: Option<(String, String)>,
)
    requires
        call_ensures(parse_join, (msg,), r),
    ensures
        name.len() > 0 && !name.contains('|') && msg@ == "J|"@ + name + "|"@ + board ==> (
        r matches Some((n, b)) && n@ == name && b@ == board),
        r matches Some((n, b)) ==> n@.len() > 0 && !n@.contains('|') && msg@ == "J|"@ + n@ + "|"@
            + b@,
{
    a_join_is_spelled_so(msg@, name, board);
    if let Some((n, b)) = r {
        a_join_is_spelled_so(msg@, n@, b@);
    }
}

/// A message that is laid out like a shot is parsed just where both coordinates are
/// numbers, and then to this name and these numbers.
pub proof fn calling_parse_shot(
    msg: &str,
    name: Seq<char>,
    x: Seq<char>,
    y: Seq<char>,
    tail: Seq<char>,
    r: Option<ShotCommand>,
)
    requires
        call_ensures(parse_shot, (msg,), r),
        name.len() > 0,
        !name.contains('|'),
        !x.contains('|'),
        !y.contains('|'),
        tail.len() > 0 ==> tail[0] == '|',
        msg@ == "S|"@ + name + "|"@ + x + "|"@ + y + tail,
    ensures
        r is Some <==> unsigned_value(x, usize::MAX as nat) is Some && unsigned_value(
            y,
            usize::MAX as nat,
        ) is Some,
        r matches Some(shot) ==> {
            &&& shot.target_name@ == name
            &&& unsigned_value(x, usize::MAX as nat) == Some(shot.x as nat)
            &&& unsigned_value(y, usize::MAX as nat) == Some(shot.y as nat)
        },
{
    a_shot_is_spelled_so(name, x, y, tail);
}

/// Nothing else is parsed as a shot.
pub proof fn calling_parse_shot_on_anything(msg: &str, r: Option<ShotCommand>)
    requires
        call_ensures(parse_shot, (msg,), r),
    ensures
        r matches Some(shot) ==> shot.target_name@.len() > 0 && !shot.target_name@.contains('|')
            && exists|x: Seq<char>, y: Seq<char>, tail: Seq<char>|
            msg@ == #[trigger] ("S|"@ + shot.target_name@ + "|"@ + x + "|"@ + y + tail)
                && unsigned_value(x, usize::MAX as nat) is Some && unsigned_value(
                y,
                usize::MAX as nat,
            ) is Some && (tail.len() > 0 ==> tail[0] == '|'),
{
    only_so_is_a_shot_spelled(msg@);
}

/// A line is read as the message before its carriage returns and line feeds.
pub proof fn calling_read_message(line: &str, msg: Seq<char>, crs: nat, lfs: nat, r: String)
    requires
        call_ensures(read_message, (line,), r),
        msg.len() > 0 ==> msg.last() != '\r',
        msg.len() > 0 && crs == 0 ==> msg.last() != '\n',
        line@ == msg + Seq::new(crs, |i: int| '\r') + Seq::new(lfs, |i: int| '\n'),
    ensures
        r@ == msg,
{
    a_line_is_a_message_and_its_end(msg, crs, lfs);
}

/// What the server says, word for word.
pub proof fn calling_the_writers(
    name: &str,
    line: String,
    hello: String,
    joined: String,
    next: String,
    miss: String,
    over: String,
    first: Step,
)
    requires
        call_ensures(write_message, (name,), line),
        call_ensures(greeting, (), hello),
        call_ensures(joined_message, (name,), joined),
        call_ensures(next_message, (name,), next),
        call_ensures(miss_message, (name,), miss),
        call_ensures(game_over_message, (name,), over),
        call_ensures(connected, (), first),
    ensures
        line@ == name@ + "\n"@,
        hello@ == "G\n"@,
        joined@ == "J|"@ + name@,
        next@ == "N|"@ + name@,
        miss@ == "M|"@ + name@,
        over@ == "N|"@ + name@ + "|GameOver"@,
        first matches Step::Write(text) && text@ == "G\n"@,
{
    reveal_strlit("\n");
    assert(line@ =~= name@ + "\n"@);
}

/// The settings are what the variables ask for, and else 127.0.0.1 and 8080; the address is
/// the host, a colon and the port in decimal.
pub proof fn calling_for_the_settings(
    host: Option<String>,
    port: Option<String>,
    asked: Config,
    default: Config,
    address: String,
)
    requires
        call_ensures(Config::from_vars, (host, port), asked),
        call_ensures(Config::default, (), default),
        call_ensures(Config::addr, (&asked,), address),
    ensures
        asked.host@ == (match host {
            Some(text) => text@,
            None => "127.0.0.1"@,
        }),
        asked.port == (match port {
            Some(text) => match unsigned_value(text@, 65535) {
                Some(n) => n,
                None => 8080,
            },
            None => 8080,
        }),
        default.host@ == "127.0.0.1"@,
        default.port == 8080,
        address@ == asked.host@ + ":"@ + decimal(asked.port as nat),
{
}

// ---------------------------------------------------------------------------
// Clients
// ---------------------------------------------------------------------------

/// A new registry has no clients. Of any registry the length is the number of its clients, and
/// what is found for a connection is the client there; its connections are a walk.
pub proof fn calling_the_registry(
    fresh: Registry,
    some: Registry,
    id: u64,
    len: usize,
    empty: bool,
    found: Option<&ClientInfo>,
    order: Vec<u64>,
)
    requires
        call_ensures(Registry::new, (), fresh),
        call_ensures(Registry::len, (&some,), len),
        call_ensures(Registry::is_empty, (&some,), empty),
        call_ensures(Registry::get, (&some, id), found),
        call_ensures(Registry::ids, (&some,), order),
    ensures
        forall|c: u64| !#[trigger] fresh@.contains_key(c),
        len == some@.len(),
        empty <==> forall|c: u64| !#[trigger] some@.contains_key(c),
        found is Some <==> some@.contains_key(id),
        found matches Some(info) ==> info@ == some@[id],
        walks(order@, some@),
        order@.len() == len,
{
    a_walk_meets_every_client(order@, some@);
    if !empty && some@.dom() =~= Set::empty() {
        assert(some@ =~= Map::empty());
    }
}

/// Entering a client and taking one out touches nobody else.
pub proof fn calling_insert_and_remove(
    entered: &mut Registry,
    taken: &mut Registry,
    id: u64,
    info: ClientInfo,
    r: (),
    out: Option<ClientInfo>,
)
    requires
        call_ensures(Registry::insert, (entered, id, info), r),
        call_ensures(Registry::remove, (taken, id), out),
    ensures
        final(entered)@.contains_key(id) && final(entered)@[id] == info@,
        forall|c: u64|
            c != id ==> (#[trigger] final(entered)@.contains_key(c) <==> old(
                entered,
            )@.contains_key(c)) && final(entered)@[c] == old(entered)@[c],
        !final(taken)@.contains_key(id),
        out is Some <==> old(taken)@.contains_key(id),
        out matches Some(was) ==> was@ == old(taken)@[id],
        forall|c: u64|
            c != id ==> (#[trigger] final(taken)@.contains_key(c) <==> old(taken)@.contains_key(c)),
        forall|c: u64| #[trigger]
            final(taken)@.contains_key(c) ==> final(taken)@[c] == old(taken)@[c],
{
}

/// A target is the first of its name on the walk.
pub proof fn calling_find_target(
    registry: Registry,
    order: Vec<u64>,
    name: String,
    k: int,
    r: Option<u64>,
)
    requires
        call_ensures(find_target, (&registry, &order, &name), r),
    ensures
        0 <= k < order@.len() && registry@[order@[k]].name == name@ && (forall|j: int|
            0 <= j < k ==> registry@[#[trigger] order@[j]].name != name@) ==> r == Some(order@[k]),
        (forall|j: int|
            0 <= j < order@.len() ==> registry@[#[trigger] order@[j]].name != name@) ==> r is None,
{
    a_name_stands_for_the_first_that_has_it(order@, registry@, name@);
}

/// The roster, and what is announced when somebody new has joined, string by string.
pub proof fn calling_the_announcers(
    registry: Registry,
    order: Vec<u64>,
    again: Vec<String>,
    new: Vec<String>,
)
    requires
        walks(order@, registry@),
        call_ensures(announce_roster, (&registry, &order), again),
        call_ensures(announce_join, (&registry, &order), new),
    ensures
        again@.len() == registry@.len(),
        forall|i: int|
            0 <= i < order@.len() ==> #[trigger] again@[i]@ == "J|"@ + registry@[order@[i]].name,
        forall|i: int|
            0 <= i < order@.len() ==> #[trigger] new@[i]@ == "J|"@ + registry@[order@[i]].name,
        registry@.len() != 2 ==> new@.len() == registry@.len(),
        registry@.len() == 2 ==> new@.len() == 3 && new@[2]@ == "N|"@ + (
        if registry@[order@[1]].joined_at < registry@[order@[0]].joined_at {
            registry@[order@[1]].name
        } else {
            registry@[order@[0]].name
        }),
{
    the_roster_names_everyone(order@, registry@);
    two_players_start_the_game(order@, registry@);
    assert(forall|i: int| 0 <= i < again@.len() ==> #[trigger] again@[i]@ == texts(again@)[i]);
    assert(forall|i: int| 0 <= i < new@.len() ==> #[trigger] new@[i]@ == texts(new@)[i]);
}

// ---------------------------------------------------------------------------
// Shots
// ---------------------------------------------------------------------------

/// A shot that is fired at nobody, or at a client without a board, changes nothing. Everyone
/// is told the command, `M|<target>` and `N|<target>`.
pub proof fn calling_fire_at_no_board(
    registry: &mut Registry,
    shooter: u64,
    target: Option<u64>,
    shot: ShotCommand,
    msg: String,
    r: ShotReport,
)
    requires
        call_ensures(fire, (registry, shooter, target, &shot, msg), r),
        target matches Some(id) ==> old(registry)@[id].board is None,
    ensures
        final(registry)@ == old(registry)@,
        !r.hit,
        !r.game_over,
        r.shown is None,
        r.broadcasts@.len() == 3,
        r.broadcasts@[0]@ == msg@,
        r.broadcasts@[1]@ == "M|"@ + shot.target_name@,
        r.broadcasts@[2]@ == "N|"@ + shot.target_name@,
{
    let clients = old(registry)@;
    let by = shooter_name(clients, shooter);
    a_shot_at_no_board_misses(clients, target, by, shot@, msg@);
    texts_are_what_the_strings_hold(r.broadcasts@);
    assert(texts(r.broadcasts@)[0] == r.broadcasts@[0]@);
    assert(texts(r.broadcasts@)[1] == r.broadcasts@[1]@);
    assert(texts(r.broadcasts@)[2] == r.broadcasts@[2]@);
}

/// A shot that is fired off the board of the target changes nothing, and one at a cell with a
/// dot leaves a '-' there. Everyone is told the command, `M|<target>` and `N|<target>`.
pub proof fn calling_fire_into_the_water(
    registry: &mut Registry,
    shooter: u64,
    target: u64,
    cells: Seq<char>,
    shot: ShotCommand,
    msg: String,
    r: ShotReport,
)
    requires
        call_ensures(fire, (registry, shooter, Some(target), &shot, msg), r),
        old(registry)@.contains_key(target),
        old(registry)@[target].board == Some(cells),
        cells.len() == 100,
        1 <= shot.x <= 10 && 1 <= shot.y <= 10 ==> cells[(shot.y - 1) * 10 + (shot.x - 1)] == '.',
    ensures
        1 <= shot.x <= 10 && 1 <= shot.y <= 10 ==> final(registry)@ == old(registry)@.insert(
            target,
            Client {
                board: Some(cells.update((shot.y - 1) * 10 + (shot.x - 1), '-')),
                ..old(registry)@[target]
            },
        ),
        !(1 <= shot.x <= 10 && 1 <= shot.y <= 10) ==> final(registry)@ == old(registry)@,
        !r.hit,
        !r.game_over,
        r.shown is None,
        r.broadcasts@.len() == 3,
        r.broadcasts@[0]@ == msg@,
        r.broadcasts@[1]@ == "M|"@ + shot.target_name@,
        r.broadcasts@[2]@ == "N|"@ + shot.target_name@,
{
    let clients = old(registry)@;
    let by = shooter_name(clients, shooter);
    a_shot_into_the_water_misses(clients, target, cells, by, shot@, msg@);
    texts_are_what_the_strings_hold(r.broadcasts@);
    assert(texts(r.broadcasts@)[0] == r.broadcasts@[0]@);
    assert(texts(r.broadcasts@)[1] == r.broadcasts@[1]@);
    assert(texts(r.broadcasts@)[2] == r.broadcasts@[2]@);
}

/// A shot that is fired at a cell of the target without a dot leaves an 'x' there. Everyone is
/// told the command and `N|<target>`, or, where no other cell of the target holds a letter other
/// than 'x' and 'X', the command and `N|<shooter>|GameOver`.
pub proof fn calling_fire_at_anything_else(
    registry: &mut Registry,
    shooter: u64,
    target: u64,
    cells: Seq<char>,
    shot: ShotCommand,
    msg: String,
    r: ShotReport,
)
    requires
        call_ensures(fire, (registry, shooter, Some(target), &shot, msg), r),
        old(registry)@.contains_key(target),
        old(registry)@[target].board == Some(cells),
        cells.len() == 100,
        1 <= shot.x <= 10 && 1 <= shot.y <= 10,
        cells[(shot.y - 1) * 10 + (shot.x - 1)] != '.',
    ensures
        ({
            let clients = old(registry)@;
            let called = shot.target_name@;
            let spot = (shot.y - 1) * 10 + (shot.x - 1);
            let goes_on = exists|i: int|
                0 <= i < 100 && i != spot && {
                    let c = #[trigger] cells[i];
                    (('A' <= c && c <= 'Z') || ('a' <= c && c <= 'z')) && c != 'x' && c != 'X'
                };
            &&& final(registry)@ == clients.insert(
                target,
                Client { board: Some(cells.update(spot, 'x')), ..clients[target] },
            )
            &&& r.hit
            &&& r.game_over <==> !goes_on
            &&& r.shown matches Some(text) && text@ == labeled_drawing(
                cells.update(spot, 'x'),
                "HIT on "@ + called + " at ("@ + decimal(shot.x as nat) + ", "@ + decimal(
                    shot.y as nat,
                ) + ")"@,
            )
            &&& r.broadcasts@.len() == 2
            &&& r.broadcasts@[0]@ == msg@
            &&& goes_on ==> r.broadcasts@[1]@ == "N|"@ + called
            &&& !goes_on && clients.contains_key(shooter) ==> r.broadcasts@[1]@ == "N|"@
                + clients[shooter].name + "|GameOver"@
            &&& !goes_on && !clients.contains_key(shooter) ==> r.broadcasts@[1]@ == "N|"@
                + "Unknown"@ + "|GameOver"@
        }),
{
    let clients = old(registry)@;
    let by = shooter_name(clients, shooter);
    a_client_shoots_under_its_name(clients, shooter);
    a_shot_at_anything_else_hits(clients, target, cells, by, shot@, msg@);
    texts_are_what_the_strings_hold(r.broadcasts@);
    assert(texts(r.broadcasts@)[0] == r.broadcasts@[0]@);
    assert(texts(r.broadcasts@)[1] == r.broadcasts@[1]@);
}

// ---------------------------------------------------------------------------
// Reactions and steps
// ---------------------------------------------------------------------------

/// What a reaction announces, string by string, and whether it ends the game.
pub proof fn calling_a_reaction(reaction: Reaction, said: Vec<String>, over: bool)
    requires
        call_ensures(Reaction::into_broadcasts, (reaction,), said),
        call_ensures(Reaction::ends_game, (&reaction,), over),
    ensures
        match reaction {
            Reaction::Joined { broadcasts, .. } => !over && said@.len() == broadcasts@.len()
                && forall|i: int|
                0 <= i < said@.len() ==> #[trigger] said@[i]@ == broadcasts@[i]@,
            Reaction::Fired { report, .. } => over == report.game_over && said@.len()
                == report.broadcasts@.len() && forall|i: int|
                0 <= i < said@.len() ==> #[trigger] said@[i]@ == report.broadcasts@[i]@,
            Reaction::Relayed { msg } => !over && said@.len() == 1 && said@[0]@ == msg@,
        },
{
    assert(texts(said@).len() == said@.len());
    assert(forall|i: int| 0 <= i < said@.len() ==> #[trigger] said@[i]@ == texts(said@)[i]);
    match reaction {
        Reaction::Joined { broadcasts, .. } => {
            assert(texts(broadcasts@).len() == broadcasts@.len());
            assert(forall|i: int|
                0 <= i < broadcasts@.len() ==> #[trigger] texts(broadcasts@)[i] == broadcasts@[i]@);
        },
        Reaction::Fired { report, .. } => {
            let b = report.broadcasts@;
            assert(texts(b).len() == b.len());
            assert(forall|i: int| 0 <= i < b.len() ==> #[trigger] texts(b)[i] == b[i]@);
        },
        Reaction::Relayed { msg } => {},
    }
}

/// Reacting to a message has the message's effect, with the clients walked in some order.
pub proof fn calling_react(
    registry: &mut Registry,
    id: u64,
    peer: &str,
    msg: String,
    now: u64,
    r: Reaction,
)
    requires
        call_ensures(react, (registry, id, peer, msg, now), r),
    ensures
        exists|order: Seq<u64>| #[trigger]
            walks(order, enrolled(old(registry)@, id, msg@, now)) && (final(registry)@, r@)
                == effect(old(registry)@, order, id, peer@, msg@, now),
{
}

/// A line without a message is passed over, and every other line is reacted to.
pub proof fn calling_step_on_a_line(
    registry: &mut Registry,
    id: u64,
    peer: &str,
    line: String,
    now: u64,
    r: Step,
)
    requires
        call_ensures(step, (registry, id, peer, Event::Line(line), now), r),
    ensures
        r is Wait <==> message_of(line@).len() == 0,
        r is Wait ==> final(registry)@ == old(registry)@,
        message_of(line@).len() > 0 ==> r is React && exists|order: Seq<u64>| #[trigger]
            walks(order, walked(old(registry)@, id, Event::Line(line), now)) && (
            final(registry)@,
            r->React_0@,
        ) == effect(old(registry)@, order, id, peer@, message_of(line@), now),
{
    let clients = old(registry)@;
    let order = choose|order: Seq<u64>| #[trigger]
        walks(order, walked(clients, id, Event::Line(line), now)) && (final(registry)@, r@)
            == outcome(clients, order, id, peer@, Event::Line(line), now);
    every_message_is_reacted_to(clients, order, id, peer@, line, now);
}

/// Whatever does not start with `J|` or `S|` goes to everyone exactly as it was sent.
pub proof fn calling_step_on_chat(
    registry: &mut Registry,
    id: u64,
    peer: &str,
    line: String,
    now: u64,
    text: Seq<char>,
    r: Step,
)
    requires
        call_ensures(step, (registry, id, peer, Event::Line(line), now), r),
        line@ == text + "\n"@ || line@ == text + "\r\n"@ || line@ == text,
        text.len() > 0,
        text.last() != '\r' && text.last() != '\n',
        text.len() >= 2 ==> !((text[0] == 'J' || text[0] == 'S') && text[1] == '|'),
    ensures
        final(registry)@ == old(registry)@,
        r matches Step::React(Reaction::Relayed { msg }) && msg@ == text,
{
    let clients = old(registry)@;
    let order = choose|order: Seq<u64>| #[trigger]
        walks(order, walked(clients, id, Event::Line(line), now)) && (final(registry)@, r@)
            == outcome(clients, order, id, peer@, Event::Line(line), now);
    chat_goes_to_everyone(clients, order, id, peer@, line, now, text);
}

/// A line with `J|<name>|<board>` enters the client. Everyone is told `J|<name>` of every
/// client there now is, and behind it, just where the client was not there before and
/// there are now two, `N|<name>` of the one that joined first.
pub proof fn calling_step_on_a_join(
    registry: &mut Registry,
    id: u64,
    peer: &str,
    line: String,
    now: u64,
    name: Seq<char>,
    board_str: Seq<char>,
    r: Step,
)
    requires
        call_ensures(step, (registry, id, peer, Event::Line(line), now), r),
        message_of(line@) == "J|"@ + name + "|"@ + board_str,
        name.len() > 0,
        !name.contains('|'),
    ensures
        final(registry)@ == old(registry)@.insert(
            id,
            Client { name, board_str, board: board_of(board_str), joined_at: now },
        ),
        r matches Step::React(Reaction::Joined { name: n, shown, broadcasts }) && n@ == name && (
        shown is Some <==> board_of(board_str) is Some) && exists|order: Seq<u64>|
            {
                let joined = final(registry)@;
                &&& #[trigger] walks(order, final(registry)@)
                &&& broadcasts@.len() == joined.len() + (if joined.len() == 2 && !old(
                    registry,
                )@.contains_key(id) {
                    1int
                } else {
                    0
                })
                &&& forall|i: int|
                    0 <= i < order.len() ==> #[trigger] broadcasts@[i]@ == "J|"@
                        + joined[order[i]].name
                &&& broadcasts@.len() > joined.len() ==> broadcasts@[2]@ == "N|"@ + (
                if joined[order[1]].joined_at < joined[order[0]].joined_at {
                    joined[order[1]].name
                } else {
                    joined[order[0]].name
                })
            },
{
    let clients = old(registry)@;
    let order = choose|order: Seq<u64>| #[trigger]
        walks(order, walked(clients, id, Event::Line(line), now)) && (final(registry)@, r@)
            == outcome(clients, order, id, peer@, Event::Line(line), now);
    a_join_is_spelled_so(message_of(line@), name, board_str);
    a_join_enters_what_was_sent(clients, id, line, now);
    joining_announces_everyone(clients, order, id, peer@, line, now, name, board_str);
    if let Step::React(Reaction::Joined { broadcasts, .. }) = r {
        texts_are_what_the_strings_hold(broadcasts@);
        assert(walks(order, final(registry)@));
        let said = r@->React_0.broadcasts();
        assert(said == texts(broadcasts@));
        assert forall|i: int| 0 <= i < order.len() implies #[trigger] broadcasts@[i]@ == "J|"@
            + final(registry)@[order[i]].name by {
            assert(said[i] == broadcasts@[i]@);
        }
        if broadcasts@.len() == 3 {
            assert(said[2] == broadcasts@[2]@);
        }
    }
}

/// A line with a shot at a client whose name nobody else has. It hits just where the
/// coordinates are on the client's board and the cell holds no dot. Of a miss everyone is told
/// the command, `M|<target>` and `N|<target>`; of a hit the command and `N|<target>`; of one
/// that leaves no other letter but 'x' and 'X' the command and that the shooter has won.
pub proof fn calling_step_on_a_shot(
    registry: &mut Registry,
    id: u64,
    peer: &str,
    line: String,
    now: u64,
    shot: Shot,
    target: u64,
    cells: Seq<char>,
    r: Step,
)
    requires
        call_ensures(step, (registry, id, peer, Event::Line(line), now), r),
        shot_of(message_of(line@)) == Some(shot),
        old(registry)@.contains_key(target),
        forall|c: u64| #[trigger]
            old(registry)@.contains_key(c) ==> (old(registry)@[c].name == shot.target_name <==> c
                == target),
        old(registry)@[target].board == Some(cells),
        cells.len() == 100,
    ensures
        ({
            let spot = (shot.y - 1) * 10 + (shot.x - 1);
            let hit = 1 <= shot.x <= 10 && 1 <= shot.y <= 10 && cells[spot] != '.';
            let goes_on = exists|i: int|
                0 <= i < 100 && i != spot && {
                    let c = #[trigger] cells[i];
                    (('A' <= c && c <= 'Z') || ('a' <= c && c <= 'z')) && c != 'x' && c != 'X'
                };
            &&& r matches Step::React(Reaction::Fired { shot: fired, report }) && {
                let said = report.broadcasts@;
                &&& fired@ == shot
                &&& report.hit == hit
                &&& report.game_over == (hit && !goes_on)
                &&& report.shown is Some <==> hit
                &&& said[0]@ == message_of(line@)
                &&& !hit ==> said.len() == 3 && said[1]@ == "M|"@ + shot.target_name && said[2]@
                    == "N|"@ + shot.target_name
                &&& hit && goes_on ==> said.len() == 2 && said[1]@ == "N|"@ + shot.target_name
                &&& hit && !goes_on && old(registry)@.contains_key(id) ==> said.len() == 2
                    && said[1]@ == "N|"@ + old(registry)@[id].name + "|GameOver"@
                &&& hit && !goes_on && !old(registry)@.contains_key(id) ==> said.len() == 2
                    && said[1]@ == "N|"@ + "Unknown"@ + "|GameOver"@
            }
        }),
{
    let clients = old(registry)@;
    let order = choose|order: Seq<u64>| #[trigger]
        walks(order, walked(clients, id, Event::Line(line), now)) && (final(registry)@, r@)
            == outcome(clients, order, id, peer@, Event::Line(line), now);
    no_join_is_a_shot(message_of(line@));
    a_join_enters_what_was_sent(clients, id, line, now);
    a_walk_meets_every_client(order, clients);
    let k = choose|k: int| 0 <= k < order.len() && order[k] == target;
    assert forall|j: int| 0 <= j < k implies clients[#[trigger] order[j]].name
        != shot.target_name by {
        assert(clients.contains_key(order[j]));
        assert(order[j] != order[k]);
    }
    shooting_at_a_client(clients, order, id, peer@, line, now, shot, k);
    if let Step::React(Reaction::Fired { report, .. }) = r {
        let b = report.broadcasts@;
        texts_are_what_the_strings_hold(b);
        assert(texts(b)[0] == b[0]@);
        assert(texts(b)[1] == b[1]@);
        if b.len() == 3 {
            assert(texts(b)[2] == b[2]@);
        }
    }
}

/// The end of a connection takes its client out and closes it; an announcement is written to
/// the client; lost ones are passed over.
pub proof fn calling_step_on_other_events(
    registry: &mut Registry,
    id: u64,
    peer: &str,
    event: Event,
    now: u64,
    r: Step,
)
    requires
        call_ensures(step, (registry, id, peer, event, now), r),
        !(event is Line),
    ensures
        match event {
            Event::Announced(msg) => final(registry)@ == old(registry)@ && (
            r matches Step::Write(text) && text@ == msg@ + "\n"@),
            Event::Lagged(_) => final(registry)@ == old(registry)@ && r is Wait,
            _ => final(registry)@ == old(registry)@.remove(id) && r is Close,
        },
{
    let clients = old(registry)@;
    let order = choose|order: Seq<u64>| #[trigger]
        walks(order, walked(clients, id, event, now)) && (final(registry)@, r@) == outcome(
            clients,
            order,
            id,
            peer@,
            event,
            now,
        );
    match event {
        Event::Announced(msg) => {
            events_besides_lines(clients, order, id, peer@, msg, 0, now);
        },
        _ => {},
    }
}

} // verus!
