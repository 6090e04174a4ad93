//! The line protocol: the messages that clients send, and those that the server sends.
use vstd::prelude::*;
use vstd::string::*;

use crate::text::{chars_of, parse_unsigned, string_of};
use crate::text::{
    ascii_digit, decimal, decimal_is_read_back, unsigned_digits, unsigned_value,
};

verus! {

// ---------------------------------------------------------------------------
// Fields
// ---------------------------------------------------------------------------

/// The place of the first '|' in `s` at or after `from`; the length of `s` where
/// there is none.
pub open spec fn next_bar(s: Seq<char>, from: int) -> int
    decreases s.len() - from,
{
    if from >= s.len() {
        s.len() as int
    } else if s[from] == '|' {
        from
    } else {
        next_bar(s, from + 1)
    }
}

/// The parts of `s` between its '|' characters.
pub open spec fn fields(s: Seq<char>) -> Seq<Seq<char>>
    decreases s.len(),
{
    let bar = next_bar(s, 0);
    if 0 <= bar < s.len() {
        seq![s.take(bar)] + fields(s.skip(bar + 1))
    } else {
        seq![s]
    }
}

/// `next_bar` finds the first '|'.
proof fn lemma_next_bar(s: Seq<char>, from: int)
    requires
        0 <= from <= s.len(),
    ensures
        from <= next_bar(s, from) <= s.len(),
        forall|i: int| from <= i < next_bar(s, from) ==> #[trigger] s[i] != '|',
        next_bar(s, from) < s.len() ==> s[next_bar(s, from)] == '|',
    decreases s.len() - from,
{
    if from < s.len() && s[from] != '|' {
        lemma_next_bar(s, from + 1);
    }
}

/// Finds the first '|' in `cs` at or after `from`.
fn find_bar(cs: &Vec<char>, from: usize) -> (r: usize)
    requires
        from <= cs@.len(),
    ensures
        r == next_bar(cs@, from as int),
        from <= r <= cs@.len(),
{
    let mut i: usize = from;
    while i < cs.len() && cs[i] != '|'
        invariant
            from <= i <= cs@.len(),
            next_bar(cs@, i as int) == next_bar(cs@, from as int),
        decreases cs@.len() - i,
    {
        i = i + 1;
    }
    i
}

/// `fields` from a place on: one field, up to the next '|', and the fields behind it.
proof fn lemma_fields_from(s: Seq<char>, from: int)
    requires
        0 <= from <= s.len(),
    ensures
        ({
            let bar = next_bar(s, from);
            fields(s.skip(from)) == if bar < s.len() {
                seq![s.subrange(from, bar)] + fields(s.skip(bar + 1))
            } else {
                seq![s.subrange(from, bar)]
            }
        }),
{
    lemma_next_bar(s, from);
    lemma_next_bar_skip(s, from, 0);
    let bar = next_bar(s, from);
    assert(s.skip(from).take(bar - from) =~= s.subrange(from, bar));
    if bar < s.len() {
        assert(s.skip(from).skip(bar - from + 1) =~= s.skip(bar + 1));
    } else {
        assert(s.skip(from) =~= s.subrange(from, bar));
    }
}

/// `next_bar` behind a dropped front.
proof fn lemma_next_bar_skip(s: Seq<char>, front: int, from: int)
    requires
        0 <= front,
        0 <= from,
        front + from <= s.len(),
    ensures
        next_bar(s.skip(front), from) == next_bar(s, front + from) - front,
    decreases s.len() - front - from,
{
    if front + from < s.len() && s[front + from] != '|' {
        lemma_next_bar_skip(s, front, from + 1);
    }
}

// ---------------------------------------------------------------------------
// Messages from clients
// ---------------------------------------------------------------------------

/// Parsed shot command: `S|<target_name>|<x>|<y>`.
#[derive(Debug, PartialEq)]
pub struct ShotCommand {
    pub target_name: String,
    pub x: usize,
    pub y: usize,
}

impl Clone for ShotCommand {
    fn clone(&self) -> (r: Self)
        ensures
            r == *self,
    {
        ShotCommand { target_name: self.target_name.clone(), x: self.x, y: self.y }
    }
}

/// A shot at cell (x, y) of the player `target_name`.
pub struct Shot {
    pub target_name: Seq<char>,
    pub x: nat,
    pub y: nat,
}

impl View for ShotCommand {
    type V = Shot;

    open spec fn view(&self) -> Shot {
        Shot { target_name: self.target_name@, x: self.x as nat, y: self.y as nat }
    }
}

/// A name that a client can have joined with: not empty, and without a '|'.
pub open spec fn valid_name(name: Seq<char>) -> bool {
    name.len() > 0 && !name.contains('|')
}

/// The shot that `msg` commands. Its first four fields are `S`, a name that is
/// not empty, and two numbers; what follows them is of no account.
pub open spec fn shot_of(msg: Seq<char>) -> Option<Shot> {
    let f = fields(msg);
    if f.len() >= 4 && f[0] == seq!['S'] && f[1].len() > 0 && unsigned_value(
        f[2],
        usize::MAX as nat,
    ) is Some && unsigned_value(f[3], usize::MAX as nat) is Some {
        Some(
            Shot {
                target_name: f[1],
                x: unsigned_value(f[2], usize::MAX as nat)->0,
                y: unsigned_value(f[3], usize::MAX as nat)->0,
            },
        )
    } else {
        None
    }
}

/// The name and the board that `msg` joins with. Its first two fields are `J` and a
/// name that is not empty; everything behind the second '|' is the board.
pub open spec fn join_of(msg: Seq<char>) -> Option<(Seq<char>, Seq<char>)> {
    let f = fields(msg);
    if f.len() >= 3 && f[0] == seq!['J'] && f[1].len() > 0 {
        Some((f[1], msg.skip(f[1].len() + 3int)))
    } else {
        None
    }
}

/// Parse a shot command string of the form `S|<target_name>|<x>|<y>`.
pub fn parse_shot(msg: &str) -> (r: Option<ShotCommand>)
    ensures
        r.is_some() == shot_of(msg@).is_some(),
        r matches Some(shot) ==> shot_of(msg@) == Some(shot@),
{
    let cs = chars_of(msg);
    let ghost s = msg@;
    let a = find_bar(&cs, 0);
    proof {
        lemma_fields_from(s, 0);
        assert(s.skip(0) =~= s);
    }
    if a == cs.len() {
        return None;
    }
    let b = find_bar(&cs, a + 1);
    proof {
        lemma_fields_from(s, a + 1);
    }
    if b == cs.len() {
        return None;
    }
    let c = find_bar(&cs, b + 1);
    proof {
        lemma_fields_from(s, b + 1);
    }
    if c == cs.len() {
        return None;
    }
    let d = find_bar(&cs, c + 1);
    proof {
        lemma_fields_from(s, c + 1);
    }
    assert(fields(s)[0] == s.subrange(0, a as int));
    assert(fields(s)[1] == s.subrange(a + 1, b as int));
    assert(fields(s)[2] == s.subrange(b + 1, c as int));
    assert(fields(s)[3] == s.subrange(c + 1, d as int));
    if a != 1 || cs[0] != 'S' {
        assert(fields(s)[0] != seq!['S']) by {
            if a == 1 {
                assert(fields(s)[0][0] == s[0]);
            }
        }
        return None;
    }
    assert(fields(s)[0] =~= seq!['S']);
    if b == a + 1 {
        return None;
    }
    let x = match parse_unsigned(&cs, b + 1, c, usize::MAX) {
        Some(x) => x,
        None => {
            return None;
        },
    };
    let y = match parse_unsigned(&cs, c + 1, d, usize::MAX) {
        Some(y) => y,
        None => {
            return None;
        },
    };
    Some(ShotCommand { target_name: string_of(&cs, a + 1, b), x, y })
}

/// Parse a join message of the form `J|<name>|<board>`.
///
/// Returns `Some((name, board))` if the message starts with `J|`, a name that is
/// not empty and a second `|`; returns `None` otherwise.
pub fn parse_join(msg: &str) -> (r: Option<(String, String)>)
    ensures
        r.is_some() == join_of(msg@).is_some(),
        r matches Some((name, board)) ==> join_of(msg@) == Some((name@, board@)),
{
    let cs = chars_of(msg);
    let ghost s = msg@;
    let a = find_bar(&cs, 0);
    proof {
        lemma_fields_from(s, 0);
        assert(s.skip(0) =~= s);
    }
    if a == cs.len() {
        return None;
    }
    let b = find_bar(&cs, a + 1);
    proof {
        lemma_fields_from(s, a + 1);
    }
    if b == cs.len() {
        return None;
    }
    proof {
        lemma_fields_from(s, b + 1);
    }
    assert(fields(s)[0] == s.subrange(0, a as int));
    assert(fields(s)[1] == s.subrange(a + 1, b as int));
    if a != 1 || cs[0] != 'J' {
        assert(fields(s)[0] != seq!['J']) by {
            if a == 1 {
                assert(fields(s)[0][0] == s[0]);
            }
        }
        return None;
    }
    assert(fields(s)[0] =~= seq!['J']);
    if b == a + 1 {
        return None;
    }
    let board = string_of(&cs, b + 1, cs.len());
    assert(board@ =~= s.skip(b + 1));
    Some((string_of(&cs, a + 1, b), board))
}

// ---------------------------------------------------------------------------
// Lines
// ---------------------------------------------------------------------------

/// `s` without the `c` characters at its end.
pub open spec fn trimmed(s: Seq<char>, c: char) -> Seq<char>
    decreases s.len(),
{
    if s.len() > 0 && s.last() == c {
        trimmed(s.drop_last(), c)
    } else {
        s
    }
}

/// The message on a line: the line without its line feeds, then without the
/// carriage returns before them.
pub open spec fn message_of(line: Seq<char>) -> Seq<char> {
    trimmed(trimmed(line, '\n'), '\r')
}

/// The length that `cs[..to]` has left without the `c` characters at its end.
fn trimmed_len(cs: &Vec<char>, to: usize, c: char) -> (r: usize)
    requires
        to <= cs@.len(),
    ensures
        r <= to,
        cs@.take(r as int) == trimmed(cs@.take(to as int), c),
{
    let mut end: usize = to;
    while end > 0 && cs[end - 1] == c
        invariant
            end <= to <= cs@.len(),
            trimmed(cs@.take(end as int), c) == trimmed(cs@.take(to as int), c),
        decreases end,
    {
        assert(cs@.take(end as int).drop_last() =~= cs@.take(end - 1));
        end = end - 1;
    }
    end
}

/// The message on the line `line`, which may still end in its line break.
pub fn read_message(line: &str) -> (r: String)
    ensures
        r@ == message_of(line@),
{
    let cs = chars_of(line);
    assert(cs@.take(cs@.len() as int) =~= cs@);
    let feeds = trimmed_len(&cs, cs.len(), '\n');
    let end = trimmed_len(&cs, feeds, '\r');
    string_of(&cs, 0, end)
}

/// A message as it is written to a client: followed by a line feed.
pub open spec fn line_of(msg: Seq<char>) -> Seq<char> {
    msg.push('\n')
}

/// The line that carries `msg`.
pub fn write_message(msg: &str) -> (r: String)
    ensures
        r@ == line_of(msg@),
{
    let mut out = msg.to_string();
    out.push('\n');
    out
}

// ---------------------------------------------------------------------------
// Messages from the server
// ---------------------------------------------------------------------------

/// `J|<name>`: `name` is among the players.
pub open spec fn joined_text(name: Seq<char>) -> Seq<char> {
    "J|"@ + name
}

/// `N|<name>`: `name` is next.
pub open spec fn next_text(name: Seq<char>) -> Seq<char> {
    "N|"@ + name
}

/// `M|<name>`: the shot at `name` missed.
pub open spec fn miss_text(name: Seq<char>) -> Seq<char> {
    "M|"@ + name
}

/// `N|<shooter>|GameOver`: `shooter` has won.
pub open spec fn game_over_text(shooter: Seq<char>) -> Seq<char> {
    "N|"@ + shooter + "|GameOver"@
}

/// What a client is sent as soon as it is connected.
pub fn greeting() -> (r: String)
    ensures
        r@ == "G\n"@,
{
    "G\n".to_string()
}

/// The message `J|<name>`.
pub fn joined_message(name: &str) -> (r: String)
    ensures
        r@ == joined_text(name@),
{
    let mut out = "J|".to_string();
    out.append(name);
    out
}

/// The message `N|<name>`.
pub fn next_message(name: &str) -> (r: String)
    ensures
        r@ == next_text(name@),
{
    let mut out = "N|".to_string();
    out.append(name);
    out
}

/// The message `M|<name>`.
pub fn miss_message(name: &str) -> (r: String)
    ensures
        r@ == miss_text(name@),
{
    let mut out = "M|".to_string();
    out.append(name);
    out
}

/// The message `N|<shooter>|GameOver`.
pub fn game_over_message(shooter: &str) -> (r: String)
    ensures
        r@ == game_over_text(shooter@),
{
    let mut out = "N|".to_string();
    out.append(shooter);
    out.append("|GameOver");
    out
}

// ---------------------------------------------------------------------------
// Laws
// ---------------------------------------------------------------------------

/// Text without a '|' before a '|' is a field of its own.
proof fn lemma_first_field(a: Seq<char>, rest: Seq<char>)
    requires
        !a.contains('|'),
    ensures
        fields(a + seq!['|'] + rest) == seq![a] + fields(rest),
{
    let s = a + seq!['|'] + rest;
    let bar = next_bar(s, 0);
    lemma_next_bar(s, 0);
    if bar < a.len() {
        assert(s[bar] == a[bar]);
        assert(a.contains(a[bar]));
    }
    if bar > a.len() {
        assert(s[a.len() as int] == '|');
    }
    assert(s.take(bar) =~= a);
    assert(s.skip(bar + 1) =~= rest);
}

/// Text without a '|' is a single field.
proof fn lemma_only_field(a: Seq<char>)
    requires
        !a.contains('|'),
    ensures
        fields(a) == seq![a],
{
    lemma_next_bar(a, 0);
    let bar = next_bar(a, 0);
    if bar < a.len() {
        assert(a.contains(a[bar]));
    }
}

/// The first field of a message, and what follows it.
proof fn lemma_split_first_field(s: Seq<char>)
    ensures
        fields(s).len() >= 1,
        !fields(s)[0].contains('|'),
        fields(s).len() == 1 ==> fields(s)[0] == s,
        fields(s).len() > 1 ==> {
            let rest = s.skip(fields(s)[0].len() + 1int);
            &&& s == fields(s)[0] + seq!['|'] + rest
            &&& fields(s).skip(1) == fields(rest)
        },
{
    let bar = next_bar(s, 0);
    lemma_next_bar(s, 0);
    if bar < s.len() {
        let rest = s.skip(bar + 1);
        assert(s =~= s.take(bar) + seq!['|'] + rest);
        assert(fields(s).skip(1) =~= fields(rest));
        assert(fields(s)[0] == s.take(bar));
        assert(fields(rest).len() >= 1);
    }
}

/// A join message that is written out is read as it was written.
pub proof fn a_written_join_is_read(name: Seq<char>, board: Seq<char>)
    requires
        valid_name(name),
    ensures
        join_of("J|"@ + name + "|"@ + board) == Some((name, board)),
{
    reveal_strlit("J|");
    reveal_strlit("|");
    let msg = "J|"@ + name + "|"@ + board;
    let rest = name + seq!['|'] + board;
    lemma_first_field(seq!['J'], rest);
    assert(msg =~= seq!['J'] + seq!['|'] + rest);
    lemma_first_field(name, board);
    lemma_split_first_field(board);
    let f = fields(msg);
    assert(f[0] == seq!['J']);
    assert(f[1] == name);
    assert(f.len() >= 3);
    assert(msg.skip(name.len() + 3int) =~= board);
}

/// A message that is read as a join is `J|<name>|<board>`, and nothing else is: the
/// name is not empty and has no '|' in it, and the board is all that follows.
pub proof fn a_join_is_what_it_spells(msg: Seq<char>)
    ensures
        join_of(msg) matches Some((name, board)) ==> valid_name(name) && msg == "J|"@ + name
            + "|"@ + board,
        join_of(msg) is None ==> !exists|name: Seq<char>, board: Seq<char>|
            valid_name(name) && msg == #[trigger] ("J|"@ + name + "|"@ + board),
{
    reveal_strlit("J|");
    reveal_strlit("|");
    if join_of(msg) is Some {
        let f = fields(msg);
        lemma_split_first_field(msg);
        let rest = msg.skip(f[0].len() + 1int);
        lemma_split_first_field(rest);
        assert(fields(rest)[0] == f.skip(1)[0]);
        let (name, board) = join_of(msg)->0;
        assert(msg =~= "J|"@ + name + "|"@ + board);
    } else {
        assert forall|name: Seq<char>, board: Seq<char>| valid_name(name) implies msg
            != #[trigger] ("J|"@ + name + "|"@ + board) by {
            a_written_join_is_read(name, board);
        }
    }
}

/// `msg` spells out the shot, with `x` and `y` for its coordinates and `tail` behind
/// them, which is nothing or starts with another '|'.
pub open spec fn spells_shot(
    msg: Seq<char>,
    shot: Shot,
    x: Seq<char>,
    y: Seq<char>,
    tail: Seq<char>,
) -> bool {
    &&& msg == "S|"@ + shot.target_name + "|"@ + x + "|"@ + y + tail
    &&& unsigned_value(x, usize::MAX as nat) == Some(shot.x)
    &&& unsigned_value(y, usize::MAX as nat) == Some(shot.y)
    &&& tail.len() > 0 ==> tail[0] == '|'
}

/// There is no '|' in a number.
proof fn lemma_no_bar_in_number(s: Seq<char>, max: nat)
    requires
        unsigned_value(s, max) is Some,
    ensures
        !s.contains('|'),
{
    let d = unsigned_digits(s);
    assert forall|i: int| 0 <= i < s.len() implies s[i] != '|' by {
        if s[0] == '+' {
            if i > 0 {
                assert(ascii_digit(d[i - 1]));
            }
        } else {
            assert(ascii_digit(d[i]));
        }
    }
}

/// A shot command that is spelled out is read as it was spelled, whatever follows
/// behind another '|'.
pub proof fn a_spelled_shot_is_read(
    msg: Seq<char>,
    shot: Shot,
    x: Seq<char>,
    y: Seq<char>,
    tail: Seq<char>,
)
    requires
        valid_name(shot.target_name),
        spells_shot(msg, shot, x, y, tail),
    ensures
        shot_of(msg) == Some(shot),
{
    lemma_no_bar_in_number(x, usize::MAX as nat);
    lemma_no_bar_in_number(y, usize::MAX as nat);
    lemma_shot_fields(shot.target_name, x, y, tail);
}

/// The fields of a message that is laid out like a shot command.
pub(crate) proof fn lemma_shot_fields(
    name: Seq<char>,
    x: Seq<char>,
    y: Seq<char>,
    tail: Seq<char>,
)
    requires
        !name.contains('|'),
        !x.contains('|'),
        !y.contains('|'),
        tail.len() > 0 ==> tail[0] == '|',
    ensures
        ({
            let f = fields("S|"@ + name + "|"@ + x + "|"@ + y + tail);
            f.len() >= 4 && f[0] == seq!['S'] && f[1] == name && f[2] == x && f[3] == y
        }),
{
    reveal_strlit("S|");
    reveal_strlit("|");
    let msg = "S|"@ + name + "|"@ + x + "|"@ + y + tail;
    let behind_y = y + tail;
    let behind_x = x + seq!['|'] + behind_y;
    let behind_name = name + seq!['|'] + behind_x;
    assert(msg =~= seq!['S'] + seq!['|'] + behind_name);
    lemma_first_field(seq!['S'], behind_name);
    lemma_first_field(name, behind_x);
    lemma_first_field(x, behind_y);
    if tail.len() > 0 {
        assert(behind_y =~= y + seq!['|'] + tail.skip(1));
        lemma_first_field(y, tail.skip(1));
    } else {
        assert(behind_y =~= y);
        lemma_only_field(y);
    }
}

/// A shot command whose coordinates are written in decimal is read as the shot.
pub proof fn a_written_shot_is_read(shot: Shot)
    requires
        valid_name(shot.target_name),
        shot.x <= usize::MAX,
        shot.y <= usize::MAX,
    ensures
        shot_of("S|"@ + shot.target_name + "|"@ + decimal(shot.x) + "|"@ + decimal(shot.y))
            == Some(shot),
{
    let msg = "S|"@ + shot.target_name + "|"@ + decimal(shot.x) + "|"@ + decimal(shot.y);
    decimal_is_read_back(shot.x, usize::MAX as nat);
    decimal_is_read_back(shot.y, usize::MAX as nat);
    assert(msg =~= msg + Seq::<char>::empty());
    a_spelled_shot_is_read(msg, shot, decimal(shot.x), decimal(shot.y), Seq::empty());
}

/// A message that is read as a shot is `S|<name>|<x>|<y>`, perhaps with another '|' and
/// more behind it: the name is not empty and has no '|' in it, and the coordinates
/// are numbers.
pub proof fn a_shot_is_what_it_spells(msg: Seq<char>)
    ensures
        shot_of(msg) matches Some(shot) ==> valid_name(shot.target_name) && exists|
            x: Seq<char>,
            y: Seq<char>,
            tail: Seq<char>,
        | #[trigger]
            spells_shot(msg, shot, x, y, tail),
{
    if let Some(shot) = shot_of(msg) {
        let f = fields(msg);
        lemma_split_first_field(msg);
        let behind_s = msg.skip(f[0].len() + 1int);
        lemma_split_first_field(behind_s);
        assert(fields(behind_s)[0] == f.skip(1)[0]);
        let behind_name = behind_s.skip(f[1].len() + 1int);
        lemma_split_first_field(behind_name);
        assert(fields(behind_name)[0] == fields(behind_s).skip(1)[0]);
        let behind_x = behind_name.skip(f[2].len() + 1int);
        lemma_split_first_field(behind_x);
        assert(fields(behind_x)[0] == fields(behind_name).skip(1)[0]);
        let tail = behind_x.skip(f[3].len() as int);
        assert(behind_x =~= f[3] + tail);
        lemma_spelled(msg, f[1], f[2], f[3], tail);
        assert(spells_shot(msg, shot, f[2], f[3], tail));
    }
}

/// The same text, put together from the front and from the back.
proof fn lemma_spelled(
    msg: Seq<char>,
    name: Seq<char>,
    x: Seq<char>,
    y: Seq<char>,
    tail: Seq<char>,
)
    requires
        msg == seq!['S'] + seq!['|'] + (name + seq!['|'] + (x + seq!['|'] + (y + tail))),
    ensures
        msg == "S|"@ + name + "|"@ + x + "|"@ + y + tail,
{
    reveal_strlit("S|");
    reveal_strlit("|");
    assert("|"@ =~= seq!['|']);
    assert(msg =~= "S|"@ + name + "|"@ + x + "|"@ + y + tail);
}

/// No message is both a join and a shot.
pub proof fn no_join_is_a_shot(msg: Seq<char>)
    ensures
        join_of(msg) is None || shot_of(msg) is None,
{
    if join_of(msg) is Some && shot_of(msg) is Some {
        assert(fields(msg)[0][0] == 'J');
    }
}

/// What the server announces of a player is itself neither a join nor a shot.
pub proof fn announcements_are_no_commands(name: Seq<char>)
    requires
        valid_name(name),
    ensures
        join_of(joined_text(name)) is None && shot_of(joined_text(name)) is None,
        join_of(next_text(name)) is None && shot_of(next_text(name)) is None,
        join_of(miss_text(name)) is None && shot_of(miss_text(name)) is None,
        join_of(game_over_text(name)) is None && shot_of(game_over_text(name)) is None,
{
    reveal_strlit("J|");
    reveal_strlit("N|");
    reveal_strlit("M|");
    lemma_only_field(name);
    lemma_first_field(seq!['J'], name);
    assert(joined_text(name) =~= seq!['J'] + seq!['|'] + name);
    lemma_first_field(seq!['N'], name);
    assert(next_text(name) =~= seq!['N'] + seq!['|'] + name);
    assert(fields(next_text(name))[0][0] == 'N');
    lemma_first_field(seq!['M'], name);
    assert(miss_text(name) =~= seq!['M'] + seq!['|'] + name);
    assert(fields(miss_text(name))[0][0] == 'M');
    let rest = name + "|GameOver"@;
    lemma_first_field(seq!['N'], rest);
    assert(game_over_text(name) =~= seq!['N'] + seq!['|'] + rest);
    assert(fields(game_over_text(name))[0][0] == 'N');
}

/// Trimming leaves a front of the text, which does not end in what was trimmed.
pub(crate) proof fn lemma_trimmed(s: Seq<char>, c: char)
    ensures
        trimmed(s, c).len() <= s.len(),
        trimmed(s, c) == s.take(trimmed(s, c).len() as int),
        trimmed(s, c).len() > 0 ==> trimmed(s, c).last() != c,
        s.len() == 0 || s.last() != c ==> trimmed(s, c) == s,
    decreases s.len(),
{
    if s.len() > 0 && s.last() == c {
        lemma_trimmed(s.drop_last(), c);
        let n = trimmed(s, c).len() as int;
        assert(s.drop_last().take(n) =~= s.take(n));
    } else {
        assert(s.take(s.len() as int) =~= s);
    }
}

/// A message that does not end in a line break comes out of its line as it went in,
/// whether the line ends in a line feed or in a carriage return and a line feed.
pub proof fn a_written_message_is_read(msg: Seq<char>)
    requires
        msg.len() > 0 ==> msg.last() != '\n' && msg.last() != '\r',
    ensures
        message_of(line_of(msg)) == msg,
        message_of(line_of(msg.push('\r'))) == msg,
{
    lemma_trimmed(msg, '\n');
    lemma_trimmed(msg, '\r');
    assert(line_of(msg).drop_last() =~= msg);
    let msg_cr = msg.push('\r');
    assert(line_of(msg_cr).drop_last() =~= msg_cr);
    lemma_trimmed(msg_cr, '\n');
    assert(trimmed(line_of(msg_cr), '\n') == msg_cr);
    assert(msg_cr.drop_last() =~= msg);
}

/// A message never ends in a carriage return. Where a line has its only line feed at
/// its end, there is none in the message, and passed on in a line of its own the
/// message is read as it was.
pub proof fn a_relayed_message_is_read(text: Seq<char>)
    requires
        !text.contains('\n'),
    ensures
        message_of(line_of(text)) == trimmed(text, '\r'),
        !message_of(line_of(text)).contains('\n'),
        message_of(line_of(message_of(line_of(text)))) == message_of(line_of(text)),
{
    assert(line_of(text).drop_last() =~= text);
    lemma_trimmed(text, '\n');
    if text.len() > 0 {
        assert(text.contains(text.last()));
    }
    lemma_trimmed(text, '\r');
    let msg = message_of(line_of(text));
    assert(trimmed(line_of(text), '\n') == text);
    assert forall|i: int| 0 <= i < msg.len() implies msg[i] != '\n' by {
        assert(msg[i] == text[i]);
        assert(text.contains(text[i]));
    }
    a_written_message_is_read(msg);
}

} // verus!
