//! The rules of the game: what a message does to the players, and what is
//! announced to everyone on account of it.
use vstd::prelude::*;
use vstd::string::*;

use crate::board::{
    a_mark_takes_the_part_it_covers, a_read_board_is_whole, ships_are_left_while_parts_are,
};
use crate::board::{
    board_of, hit_at, labeled_drawing, marked, on_board, parts_left, place, ship_part, ships_left,
};
use crate::board::{Board, CELLS};
use crate::protocol::{a_join_is_what_it_spells, announcements_are_no_commands};
use crate::protocol::{game_over_text, join_of, joined_text, miss_text, next_text, shot_of};
use crate::protocol::{
    game_over_message, joined_message, miss_message, next_message, parse_join, parse_shot,
};
use crate::protocol::{Shot, ShotCommand};
use crate::registry::{
    a_name_finds_its_client, a_walk_meets_every_client, the_first_joiner_joined_first,
};
use crate::registry::{first_joiner, named, valid_client, valid_clients, walks};
use crate::registry::{Client, ClientInfo, Clients, Registry};
use crate::text::{decimal, texts};
use crate::text::push_decimal;

verus! {

// ---------------------------------------------------------------------------
// Joining
// ---------------------------------------------------------------------------

/// The client that joins at the moment `now` with a name and a written board.
pub open spec fn joining(name: Seq<char>, board_str: Seq<char>, now: u64) -> Client {
    Client { name, board_str, board: board_of(board_str), joined_at: now }
}

/// One `J|<name>` for every client, in the order of the walk.
pub open spec fn roster(order: Seq<u64>, clients: Clients) -> Seq<Seq<char>> {
    order.map_values(|id: u64| joined_text(clients[id].name))
}

/// What is announced once a client has joined that was not there before: the roster,
/// and behind it, if there are now exactly two clients, which of them goes first.
pub open spec fn join_broadcasts(order: Seq<u64>, clients: Clients) -> Seq<Seq<char>> {
    if clients.len() == 2 {
        match first_joiner(order, clients) {
            Some(id) => roster(order, clients).push(next_text(clients[id].name)),
            None => roster(order, clients),
        }
    } else {
        roster(order, clients)
    }
}

/// The title of the board that a client joined with.
pub open spec fn joined_label(name: Seq<char>, peer: Seq<char>) -> Seq<char> {
    "Client "@ + name + " ("@ + peer + ") joined"@
}

/// The title of the board that a client joined with.
fn write_joined_label(name: &str, peer: &str) -> (r: String)
    ensures
        r@ == joined_label(name@, peer@),
{
    let mut out = "Client ".to_string();
    out.append(name);
    out.append(" (");
    out.append(peer);
    out.append(") joined");
    out
}

/// The client that joined first, with `order` walking over the clients.
fn find_first_joiner(registry: &Registry, order: &Vec<u64>) -> (r: Option<u64>)
    requires
        walks(order@, registry@),
    ensures
        r == first_joiner(order@, registry@),
        r matches Some(id) ==> registry@.contains_key(id),
{
    let mut best: Option<u64> = None;
    let mut i: usize = 0;
    while i < order.len()
        invariant
            i <= order@.len(),
            walks(order@, registry@),
            best == first_joiner(order@.take(i as int), registry@),
            best matches Some(id) ==> registry@.contains_key(id),
        decreases order@.len() - i,
    {
        let id = order[i];
        proof {
            assert(order@.take(i + 1).drop_last() =~= order@.take(i as int));
            assert(order@.contains(id));
            assert(order@.to_set().contains(id));
        }
        best = match best {
            Some(b) => {
                match (registry.get(id), registry.get(b)) {
                    (Some(new), Some(known)) => {
                        if new.joined_at < known.joined_at {
                            Some(id)
                        } else {
                            Some(b)
                        }
                    },
                    _ => Some(b),
                }
            },
            None => Some(id),
        };
        i = i + 1;
    }
    assert(order@.take(i as int) =~= order@);
    best
}

/// One `J|<name>` for every client, with `order` walking over the clients.
pub fn announce_roster(registry: &Registry, order: &Vec<u64>) -> (r: Vec<String>)
    requires
        walks(order@, registry@),
    ensures
        texts(r@) == roster(order@, registry@),
{
    let mut out: Vec<String> = Vec::new();
    let mut i: usize = 0;
    while i < order.len()
        invariant
            i <= order@.len(),
            walks(order@, registry@),
            texts(out@) == roster(order@, registry@).take(i as int),
        decreases order@.len() - i,
    {
        let id = order[i];
        proof {
            assert(order@.contains(id));
            assert(order@.to_set().contains(id));
        }
        assert(registry@.contains_key(id));
        let ghost before = out@;
        if let Some(client) = registry.get(id) {
            out.push(joined_message(client.name.as_str()));
            assert(texts(out@) =~= texts(before).push(joined_text(registry@[id].name)));
        }
        i = i + 1;
        assert(texts(out@) =~= roster(order@, registry@).take(i as int));
    }
    assert(texts(out@) =~= roster(order@, registry@));
    out
}

/// What is announced once a client has joined that was not there before, with `order`
/// walking over the clients.
pub fn announce_join(registry: &Registry, order: &Vec<u64>) -> (r: Vec<String>)
    requires
        walks(order@, registry@),
    ensures
        texts(r@) == join_broadcasts(order@, registry@),
{
    let mut out = announce_roster(registry, order);
    if registry.len() == 2 {
        if let Some(id) = find_first_joiner(registry, order) {
            if let Some(client) = registry.get(id) {
                out.push(next_message(client.name.as_str()));
            }
        }
    }
    assert(texts(out@) =~= join_broadcasts(order@, registry@));
    out
}

// ---------------------------------------------------------------------------
// Shooting
// ---------------------------------------------------------------------------

/// The cells that client `target` defends, where there is such a client and it has
/// a board.
pub open spec fn defended(clients: Clients, target: Option<u64>) -> Option<Seq<char>> {
    match target {
        Some(id) => clients[id].board,
        None => None,
    }
}

/// Whether the shot hits something.
pub open spec fn hits(cells: Option<Seq<char>>, shot: Shot) -> bool {
    match cells {
        Some(cells) => hit_at(cells, shot.x as int, shot.y as int),
        None => false,
    }
}

/// The cells after the shot: 'x' where it hit, '-' where it missed.
pub open spec fn after_shot(cells: Seq<char>, shot: Shot) -> Seq<char> {
    let (x, y) = (shot.x as int, shot.y as int);
    marked(
        cells,
        x,
        y,
        if hit_at(cells, x, y) {
            'x'
        } else {
            '-'
        },
    )
}

/// Whether the shot hits and leaves no part of a ship.
pub open spec fn wins(cells: Option<Seq<char>>, shot: Shot) -> bool {
    match cells {
        Some(cells) => hit_at(cells, shot.x as int, shot.y as int) && !ships_left(
            after_shot(cells, shot),
        ),
        None => false,
    }
}

/// The clients after the shot at client `target`.
pub open spec fn clients_after_shot(clients: Clients, target: Option<u64>, shot: Shot) -> Clients {
    match target {
        Some(id) => match clients[id].board {
            Some(cells) => clients.insert(
                id,
                Client { board: Some(after_shot(cells, shot)), ..clients[id] },
            ),
            None => clients,
        },
        None => clients,
    }
}

/// The name that client `id` shoots under.
pub open spec fn shooter_name(clients: Clients, id: u64) -> Seq<char> {
    if clients.contains_key(id) {
        clients[id].name
    } else {
        "Unknown"@
    }
}

/// What is announced after a shot: the command itself; then that the shooter has
/// won, or else the miss, if it was one, and that the target is next.
pub open spec fn shot_broadcasts(
    msg: Seq<char>,
    shooter: Seq<char>,
    cells: Option<Seq<char>>,
    shot: Shot,
) -> Seq<Seq<char>> {
    if wins(cells, shot) {
        seq![msg, game_over_text(shooter)]
    } else if hits(cells, shot) {
        seq![msg, next_text(shot.target_name)]
    } else {
        seq![msg, miss_text(shot.target_name), next_text(shot.target_name)]
    }
}

/// The title of a board that was hit.
pub open spec fn hit_label(shot: Shot) -> Seq<char> {
    "HIT on "@ + shot.target_name + " at ("@ + decimal(shot.x) + ", "@ + decimal(shot.y) + ")"@
}

/// What is shown of the target after a shot: the board, if it was hit.
pub open spec fn shown_after_shot(cells: Option<Seq<char>>, shot: Shot) -> Option<Seq<char>> {
    match cells {
        Some(c) => if hits(cells, shot) {
            Some(labeled_drawing(after_shot(c, shot), hit_label(shot)))
        } else {
            None
        },
        None => None,
    }
}

/// The title of a board that was hit.
fn write_hit_label(shot: &ShotCommand) -> (r: String)
    ensures
        r@ == hit_label(shot@),
{
    let mut out = "HIT on ".to_string();
    out.append(shot.target_name.as_str());
    out.append(" at (");
    push_decimal(&mut out, shot.x);
    out.append(", ");
    push_decimal(&mut out, shot.y);
    out.append(")");
    out
}

/// The first client called `name` that `order` meets, with `order` walking over
/// the clients.
pub fn find_target(registry: &Registry, order: &Vec<u64>, name: &String) -> (r: Option<u64>)
    requires
        walks(order@, registry@),
    ensures
        r == named(order@, registry@, name@),
        r matches Some(id) ==> registry@.contains_key(id) && registry@[id].name == name@,
{
    let mut i: usize = 0;
    assert(order@.skip(0) =~= order@);
    while i < order.len()
        invariant
            i <= order@.len(),
            walks(order@, registry@),
            named(order@, registry@, name@) == named(order@.skip(i as int), registry@, name@),
        decreases order@.len() - i,
    {
        let id = order[i];
        proof {
            assert(order@.contains(id));
            assert(order@.to_set().contains(id));
            assert(order@.skip(i as int).skip(1) =~= order@.skip(i + 1));
        }
        if let Some(client) = registry.get(id) {
            if client.name == *name {
                return Some(id);
            }
        }
        i = i + 1;
    }
    None
}

/// The outcome of a shot.
pub struct ShotReport {
    /// Whether something was hit.
    pub hit: bool,
    /// Whether the hit left no part of a ship.
    pub game_over: bool,
    /// The board that was hit, as it is shown on a console.
    pub shown: Option<String>,
    /// What is announced to everyone, in order.
    pub broadcasts: Vec<String>,
}

/// Client `shooter` sends the command `msg`, which is the shot `shot` at client
/// `target`; there is no target if no client has the name.
pub fn fire(
    registry: &mut Registry,
    shooter: u64,
    target: Option<u64>,
    shot: &ShotCommand,
    msg: String,
) -> (r: ShotReport)
    requires
        target matches Some(id) ==> old(registry)@.contains_key(id) && old(registry)@[id].name
            == shot@.target_name,
    ensures
        final(registry)@ == clients_after_shot(old(registry)@, target, shot@),
        r.hit == hits(defended(old(registry)@, target), shot@),
        r.game_over == wins(defended(old(registry)@, target), shot@),
        r.shown.deep_view() == shown_after_shot(defended(old(registry)@, target), shot@),
        texts(r.broadcasts@) == shot_broadcasts(
            msg@,
            shooter_name(old(registry)@, shooter),
            defended(old(registry)@, target),
            shot@,
        ),
{
    let ghost clients = registry@;
    let ghost cells = defended(clients, target);
    let shooter_called = match registry.get(shooter) {
        Some(client) => client.name.clone(),
        None => "Unknown".to_string(),
    };
    let mut hit = false;
    let mut game_over = false;
    let mut shown: Option<String> = None;
    if let Some(id) = target {
        if let Some(client) = registry.get(id) {
            if let Some(board) = &client.board {
                let mut board = board.clone();
                let mut info = client.clone();
                if board.is_hit(shot.x, shot.y) {
                    hit = true;
                    board.set_hit(shot.x, shot.y);
                    shown = Some(board.to_labeled_string(write_hit_label(shot).as_str()));
                    if !board.has_remaining_letters() {
                        game_over = true;
                    }
                } else {
                    board.set_miss(shot.x, shot.y);
                }
                info.board = Some(board);
                registry.insert(id, info);
            }
        }
    }
    let mut broadcasts: Vec<String> = Vec::new();
    broadcasts.push(msg);
    if game_over {
        broadcasts.push(game_over_message(shooter_called.as_str()));
    } else {
        if !hit {
            broadcasts.push(miss_message(shot.target_name.as_str()));
        }
        broadcasts.push(next_message(shot.target_name.as_str()));
    }
    assert(texts(broadcasts@) =~= shot_broadcasts(
        msg@,
        shooter_name(clients, shooter),
        cells,
        shot@,
    ));
    ShotReport { hit, game_over, shown, broadcasts }
}

// ---------------------------------------------------------------------------
// Messages
// ---------------------------------------------------------------------------

/// What a message brings about, besides its change of the registry.
pub enum Reaction {
    /// The client has joined.
    Joined {
        name: String,
        /// The board it joined with, as it is shown on a console.
        shown: Option<String>,
        /// What is announced to everyone, in order.
        broadcasts: Vec<String>,
    },
    /// The client has fired a shot.
    Fired { shot: ShotCommand, report: ShotReport },
    /// The message goes to everyone as it is.
    Relayed { msg: String },
}

/// What a message brings about, besides its change of the clients.
pub enum Effect {
    Joined { name: Seq<char>, shown: Option<Seq<char>>, broadcasts: Seq<Seq<char>> },
    Fired {
        shot: Shot,
        hit: bool,
        game_over: bool,
        shown: Option<Seq<char>>,
        broadcasts: Seq<Seq<char>>,
    },
    Relayed { msg: Seq<char> },
}

impl View for Reaction {
    type V = Effect;

    open spec fn view(&self) -> Effect {
        match *self {
            Reaction::Joined { name, shown, broadcasts } => Effect::Joined {
                name: name@,
                shown: shown.deep_view(),
                broadcasts: texts(broadcasts@),
            },
            Reaction::Fired { shot, report } => Effect::Fired {
                shot: shot@,
                hit: report.hit,
                game_over: report.game_over,
                shown: report.shown.deep_view(),
                broadcasts: texts(report.broadcasts@),
            },
            Reaction::Relayed { msg } => Effect::Relayed { msg: msg@ },
        }
    }
}

impl Effect {
    /// What is announced to everyone, in order.
    pub open spec fn broadcasts(self) -> Seq<Seq<char>> {
        match self {
            Effect::Joined { broadcasts, .. } => broadcasts,
            Effect::Fired { broadcasts, .. } => broadcasts,
            Effect::Relayed { msg } => seq![msg],
        }
    }

    /// Whether the game has ended.
    pub open spec fn ends_game(self) -> bool {
        match self {
            Effect::Fired { game_over, .. } => game_over,
            _ => false,
        }
    }
}

impl Reaction {
    /// Whether the game has ended.
    pub fn ends_game(&self) -> (r: bool)
        ensures
            r == self@.ends_game(),
    {
        match self {
            Reaction::Fired { report, .. } => report.game_over,
            _ => false,
        }
    }

    /// What is announced to everyone, in order.
    pub fn into_broadcasts(self) -> (r: Vec<String>)
        ensures
            texts(r@) == self@.broadcasts(),
    {
        match self {
            Reaction::Joined { broadcasts, .. } => broadcasts,
            Reaction::Fired { report, .. } => report.broadcasts,
            Reaction::Relayed { msg } => {
                let mut out: Vec<String> = Vec::new();
                out.push(msg);
                assert(texts(out@) =~= seq![msg@]);
                out
            },
        }
    }
}

/// The clients once client `id`, if `msg` is a join, has joined with it.
pub open spec fn enrolled(clients: Clients, id: u64, msg: Seq<char>, now: u64) -> Clients {
    match join_of(msg) {
        Some((name, board_str)) => clients.insert(id, joining(name, board_str, now)),
        None => clients,
    }
}

/// The clients after the message `msg` of client `id`, whose address is `peer`, at
/// the moment `now`, and what it brings about. `order` is the order in which the
/// clients are walked once the sender, if the message is a join, is among them.
pub open spec fn effect(
    clients: Clients,
    order: Seq<u64>,
    id: u64,
    peer: Seq<char>,
    msg: Seq<char>,
    now: u64,
) -> (Clients, Effect) {
    match join_of(msg) {
        Some((name, board_str)) => {
            let joined = enrolled(clients, id, msg, now);
            (
                joined,
                Effect::Joined {
                    name,
                    shown: match board_of(board_str) {
                        Some(cells) => Some(labeled_drawing(cells, joined_label(name, peer))),
                        None => None,
                    },
                    broadcasts: if clients.contains_key(id) {
                        roster(order, joined)
                    } else {
                        join_broadcasts(order, joined)
                    },
                },
            )
        },
        None => match shot_of(msg) {
            Some(shot) => {
                let target = named(order, clients, shot.target_name);
                let cells = defended(clients, target);
                (
                    clients_after_shot(clients, target, shot),
                    Effect::Fired {
                        shot,
                        hit: hits(cells, shot),
                        game_over: wins(cells, shot),
                        shown: shown_after_shot(cells, shot),
                        broadcasts: shot_broadcasts(msg, shooter_name(clients, id), cells, shot),
                    },
                )
            },
            None => (clients, Effect::Relayed { msg }),
        },
    }
}

/// Client `id`, whose address is `peer`, sends the message `msg` at the moment `now`.
/// The order in which the registry is walked is not known beforehand.
pub fn react(registry: &mut Registry, id: u64, peer: &str, msg: String, now: u64) -> (r: Reaction)
    ensures
        exists|order: Seq<u64>| #[trigger]
            walks(order, enrolled(old(registry)@, id, msg@, now)) && (final(registry)@, r@)
                == effect(old(registry)@, order, id, peer@, msg@, now),
{
    let ghost clients = registry@;
    if let Some((name, board_str)) = parse_join(msg.as_str()) {
        let board = Board::parse(board_str.as_str());
        let shown = match &board {
            Some(b) => Some(
                b.to_labeled_string(write_joined_label(name.as_str(), peer).as_str()),
            ),
            None => None,
        };
        let info = ClientInfo { name: name.clone(), board_str, board, joined_at: now };
        let again = registry.get(id).is_some();
        registry.insert(id, info);
        let order = registry.ids();
        let broadcasts = if again {
            announce_roster(registry, &order)
        } else {
            announce_join(registry, &order)
        };
        assert(walks(order@, enrolled(clients, id, msg@, now)));
        return Reaction::Joined { name, shown, broadcasts };
    }
    if let Some(shot) = parse_shot(msg.as_str()) {
        let order = registry.ids();
        let target = find_target(registry, &order, &shot.target_name);
        assert(walks(order@, enrolled(clients, id, msg@, now)));
        let report = fire(registry, id, target, &shot, msg);
        return Reaction::Fired { shot, report };
    }
    proof {
        registry.can_be_walked();
    }
    Reaction::Relayed { msg }
}

// ---------------------------------------------------------------------------
// Laws
// ---------------------------------------------------------------------------

/// A message that is neither a join nor a shot goes to everyone as it is, and changes
/// nothing.
pub proof fn other_messages_are_relayed(
    clients: Clients,
    order: Seq<u64>,
    id: u64,
    peer: Seq<char>,
    msg: Seq<char>,
    now: u64,
)
    requires
        join_of(msg) is None,
        shot_of(msg) is None,
    ensures
        effect(clients, order, id, peer, msg, now).0 == clients,
        effect(clients, order, id, peer, msg, now).1.broadcasts() == seq![msg],
        !effect(clients, order, id, peer, msg, now).1.ends_game(),
{
}

/// A join enters the client under its connection, in place of what was there, and
/// touches no other client.
pub proof fn a_join_registers_the_client(
    clients: Clients,
    order: Seq<u64>,
    id: u64,
    peer: Seq<char>,
    msg: Seq<char>,
    now: u64,
)
    requires
        join_of(msg) is Some,
    ensures
        ({
            let (name, board_str) = join_of(msg)->0;
            let after = effect(clients, order, id, peer, msg, now).0;
            &&& after.contains_key(id)
            &&& after[id].name == name
            &&& after[id].board_str == board_str
            &&& after[id].board == board_of(board_str)
            &&& after[id].joined_at == now
            &&& after.remove(id) == clients.remove(id)
        }),
{
    let after = effect(clients, order, id, peer, msg, now).0;
    assert(after.remove(id) =~= clients.remove(id));
}

/// A client that joins twice is left as if it had only joined the second time.
pub proof fn a_second_join_replaces_the_first(
    clients: Clients,
    order1: Seq<u64>,
    order2: Seq<u64>,
    id: u64,
    peer: Seq<char>,
    msg1: Seq<char>,
    now1: u64,
    msg2: Seq<char>,
    now2: u64,
)
    requires
        join_of(msg1) is Some,
        join_of(msg2) is Some,
    ensures
        ({
            let first = effect(clients, order1, id, peer, msg1, now1).0;
            effect(first, order2, id, peer, msg2, now2).0 == effect(
                clients,
                order2,
                id,
                peer,
                msg2,
                now2,
            ).0
        }),
{
    let first = effect(clients, order1, id, peer, msg1, now1).0;
    assert(effect(first, order2, id, peer, msg2, now2).0 =~= effect(
        clients,
        order2,
        id,
        peer,
        msg2,
        now2,
    ).0);
}

/// When a client joins that was not there before, every client, the new one too, is
/// announced to everyone, one message for each; one more message, which says that the
/// first to have joined goes first, follows if there are then exactly two clients, and
/// only then.
pub proof fn a_join_announces_every_client(order: Seq<u64>, clients: Clients)
    requires
        walks(order, clients),
    ensures
        join_broadcasts(order, clients).len() == clients.len() + (if clients.len() == 2 {
            1int
        } else {
            0
        }),
        forall|id: u64| #[trigger]
            clients.contains_key(id) ==> join_broadcasts(order, clients).contains(
                joined_text(clients[id].name),
            ),
        forall|i: int|
            0 <= i < clients.len() ==> exists|id: u64|
                clients.contains_key(id) && #[trigger] join_broadcasts(order, clients)[i]
                    == joined_text(clients[id].name),
        clients.len() == 2 ==> exists|first: u64|
            {
                &&& #[trigger] clients.contains_key(first)
                &&& join_broadcasts(order, clients).last() == next_text(clients[first].name)
                &&& forall|id: u64| #[trigger]
                    clients.contains_key(id) ==> clients[first].joined_at <= clients[id].joined_at
            },
{
    a_walk_meets_every_client(order, clients);
    the_first_joiner_joined_first(order, clients);
    let all = join_broadcasts(order, clients);
    assert forall|id: u64| #[trigger] clients.contains_key(id) implies all.contains(
        joined_text(clients[id].name),
    ) by {
        let i = choose|i: int| 0 <= i < order.len() && order[i] == id;
        assert(all[i] == joined_text(clients[id].name));
    }
    assert forall|i: int| 0 <= i < clients.len() implies exists|id: u64|
        clients.contains_key(id) && #[trigger] all[i] == joined_text(clients[id].name) by {
        assert(all[i] == joined_text(clients[order[i]].name));
    }
}

/// When a client joins that is already among the clients, the roster is announced and
/// nothing else: who goes first is not announced a second time.
pub proof fn a_repeated_join_announces_the_roster_alone(
    clients: Clients,
    order: Seq<u64>,
    id: u64,
    peer: Seq<char>,
    msg: Seq<char>,
    now: u64,
)
    requires
        clients.contains_key(id),
        join_of(msg) is Some,
        walks(order, enrolled(clients, id, msg, now)),
    ensures
        ({
            let (after, effect) = effect(clients, order, id, peer, msg, now);
            &&& effect.broadcasts() == roster(order, after)
            &&& effect.broadcasts().len() == clients.len()
            &&& forall|name: Seq<char>| !effect.broadcasts().contains(#[trigger] next_text(name))
        }),
{
    let after = effect(clients, order, id, peer, msg, now).0;
    a_walk_meets_every_client(order, after);
    assert(after.dom() =~= clients.dom());
    reveal_strlit("J|");
    reveal_strlit("N|");
    assert forall|name: Seq<char>| !roster(order, after).contains(#[trigger] next_text(name)) by {
        assert(next_text(name)[0] == 'N');
        assert forall|i: int| 0 <= i < order.len() implies roster(order, after)[i] != next_text(
            name,
        ) by {
            assert(joined_text(after[order[i]].name)[0] == 'J');
        }
    }
}

/// How often a walk's roster holds a text: once for each client that it announces.
proof fn lemma_roster_counts(order: Seq<u64>, clients: Clients, text: Seq<char>)
    requires
        order.no_duplicates(),
    ensures
        roster(order, clients).to_multiset().count(text) == order.to_set().filter(
            |id: u64| joined_text(clients[id].name) == text,
        ).len(),
    decreases order.len(),
{
    broadcast use vstd::seq_lib::group_to_multiset_ensures;

    let announces = |id: u64| joined_text(clients[id].name) == text;
    let all = order.to_set().filter(announces);
    if order.len() == 0 {
        assert(all =~= Set::<u64>::empty());
        assert(roster(order, clients) =~= Seq::<Seq<char>>::empty());
    } else {
        let rest = order.drop_last();
        let last = order.last();
        lemma_roster_counts(rest, clients, text);
        assert(roster(order, clients) =~= roster(rest, clients).push(
            joined_text(clients[last].name),
        ));
        assert(order =~= rest.push(last));
        assert(!rest.to_set().contains(last));
        let before = rest.to_set().filter(announces);
        assert(order.to_set() =~= rest.to_set().insert(last));
        if announces(last) {
            assert(all =~= before.insert(last));
        } else {
            assert(all =~= before);
        }
    }
}

/// Whatever the order of the walk, the roster holds the same announcements.
pub proof fn the_roster_is_the_same_on_every_walk(one: Seq<u64>, other: Seq<u64>, clients: Clients)
    requires
        walks(one, clients),
        walks(other, clients),
    ensures
        roster(one, clients).to_multiset() == roster(other, clients).to_multiset(),
{
    let (a, b) = (roster(one, clients).to_multiset(), roster(other, clients).to_multiset());
    assert forall|text: Seq<char>| a.count(text) == b.count(text) by {
        lemma_roster_counts(one, clients, text);
        lemma_roster_counts(other, clients, text);
    }
    assert(a =~= b);
}

/// A message changes the clients in the same way whatever the order of the walk, and
/// brings about the same unless it is a join, as long as no two clients have the same
/// name.
pub proof fn the_walk_does_not_matter(
    clients: Clients,
    one: Seq<u64>,
    other: Seq<u64>,
    id: u64,
    peer: Seq<char>,
    msg: Seq<char>,
    now: u64,
)
    requires
        walks(one, enrolled(clients, id, msg, now)),
        walks(other, enrolled(clients, id, msg, now)),
        forall|a: u64, b: u64|
            #[trigger] clients.contains_key(a) && #[trigger] clients.contains_key(b) && a != b
                ==> clients[a].name != clients[b].name,
    ensures
        effect(clients, one, id, peer, msg, now).0 == effect(clients, other, id, peer, msg, now).0,
        join_of(msg) is None ==> effect(clients, one, id, peer, msg, now) == effect(
            clients,
            other,
            id,
            peer,
            msg,
            now,
        ),
{
    if join_of(msg) is None && shot_of(msg) is Some {
        let name = shot_of(msg)->0.target_name;
        a_name_finds_its_client(one, clients, name);
        a_name_finds_its_client(other, clients, name);
    }
}

/// The message of a join is itself not announced, so its board stays hidden.
pub proof fn a_join_message_is_not_passed_on(
    clients: Clients,
    order: Seq<u64>,
    id: u64,
    peer: Seq<char>,
    msg: Seq<char>,
    now: u64,
)
    requires
        valid_clients(clients),
        join_of(msg) is Some,
        walks(order, enrolled(clients, id, msg, now)),
    ensures
        !effect(clients, order, id, peer, msg, now).1.broadcasts().contains(msg),
{
    let (after, effect) = effect(clients, order, id, peer, msg, now);
    let all = effect.broadcasts();
    a_join_is_what_it_spells(msg);
    a_walk_meets_every_client(order, after);
    the_first_joiner_joined_first(order, after);
    assert forall|i: int| 0 <= i < all.len() implies all[i] != msg by {
        let c = if i < order.len() {
            order[i]
        } else {
            first_joiner(order, after)->0
        };
        assert(after.contains_key(c));
        assert(valid_client(after[c]));
        announcements_are_no_commands(after[c].name);
    }
}

/// When the second of two players joins, the last thing announced is that the first
/// of them goes first.
pub proof fn the_earlier_of_two_goes_first(
    clients: Clients,
    order: Seq<u64>,
    earlier: u64,
    id: u64,
    peer: Seq<char>,
    msg: Seq<char>,
    now: u64,
)
    requires
        clients.dom() == set![earlier],
        id != earlier,
        clients[earlier].joined_at < now,
        join_of(msg) is Some,
        walks(order, enrolled(clients, id, msg, now)),
    ensures
        effect(clients, order, id, peer, msg, now).1.broadcasts().last() == next_text(
            clients[earlier].name,
        ),
{
    let after = effect(clients, order, id, peer, msg, now).0;
    assert(after.dom() =~= set![earlier, id]);
    assert(after.len() == 2);
    the_first_joiner_joined_first(order, after);
    assert(after.contains_key(earlier));
    let first = first_joiner(order, after)->0;
    assert(after.contains_key(first));
}

/// A shot leaves every client where it is, with its name, its written board and its
/// turn; of all boards only that of one client called as the shot says can change,
/// and of its cells only the one shot at.
pub proof fn a_shot_touches_one_cell(
    clients: Clients,
    order: Seq<u64>,
    id: u64,
    peer: Seq<char>,
    msg: Seq<char>,
    now: u64,
)
    requires
        valid_clients(clients),
        join_of(msg) is None,
        shot_of(msg) is Some,
        walks(order, enrolled(clients, id, msg, now)),
    ensures
        ({
            let shot = shot_of(msg)->0;
            let target = named(order, clients, shot.target_name);
            let after = effect(clients, order, id, peer, msg, now).0;
            &&& after.dom() == clients.dom()
            &&& forall|c: u64| #[trigger]
                clients.contains_key(c) ==> {
                    &&& after[c].name == clients[c].name
                    &&& after[c].board_str == clients[c].board_str
                    &&& after[c].joined_at == clients[c].joined_at
                    &&& Some(c) != target ==> after[c] == clients[c]
                    &&& after[c].board is Some <==> clients[c].board is Some
                    &&& forall|i: int|
                        0 <= i < CELLS && i != place(shot.x as int, shot.y as int)
                            && clients[c].board is Some ==> (#[trigger] after[c].board->0[i])
                            == clients[c].board->0[i]
                }
        }),
{
    let shot = shot_of(msg)->0;
    let target = named(order, clients, shot.target_name);
    let after = effect(clients, order, id, peer, msg, now).0;
    a_name_finds_its_client(order, clients, shot.target_name);
    assert(after.dom() =~= clients.dom());
    if let Some(t) = target {
        assert(valid_client(clients[t]));
    }
}

/// A shot never adds to the parts of ships that a client has left, and takes at most
/// one; it takes one just where it was aimed at one.
pub proof fn a_shot_takes_at_most_one_part(cells: Seq<char>, shot: Shot)
    requires
        cells.len() == CELLS,
    ensures
        after_shot(cells, shot).len() == CELLS,
        parts_left(after_shot(cells, shot)) == parts_left(cells) - (if on_board(
            shot.x as int,
            shot.y as int,
        ) && ship_part(cells[place(shot.x as int, shot.y as int)]) {
            1int
        } else {
            0
        }),
{
    a_mark_takes_the_part_it_covers(cells, shot.x as int, shot.y as int, 'x');
    a_mark_takes_the_part_it_covers(cells, shot.x as int, shot.y as int, '-');
}

/// The game ends with a shot that hits and leaves its target no part of a ship, and
/// with no other message. Then the last thing announced is that the shooter has won;
/// after any other shot it is that the target is next.
pub proof fn the_game_ends_when_no_ship_is_left(
    clients: Clients,
    order: Seq<u64>,
    id: u64,
    peer: Seq<char>,
    msg: Seq<char>,
    now: u64,
)
    requires
        walks(order, enrolled(clients, id, msg, now)),
    ensures
        ({
            let (after, effect) = effect(clients, order, id, peer, msg, now);
            let shot = shot_of(msg)->0;
            let target = named(order, clients, shot.target_name);
            &&& effect.ends_game() ==> {
                &&& join_of(msg) is None
                &&& shot_of(msg) is Some
                &&& target is Some
                &&& clients[target->0].board is Some
                &&& hit_at(clients[target->0].board->0, shot.x as int, shot.y as int)
                &&& after[target->0].board is Some
                &&& parts_left(after[target->0].board->0) == 0
                &&& effect.broadcasts() == seq![msg, game_over_text(shooter_name(clients, id))]
            }
            &&& join_of(msg) is None && shot_of(msg) is Some && !effect.ends_game() ==> {
                &&& effect.broadcasts().first() == msg
                &&& effect.broadcasts().last() == next_text(shot.target_name)
            }
        }),
{
    if join_of(msg) is None && shot_of(msg) is Some {
        let shot = shot_of(msg)->0;
        let target = named(order, clients, shot.target_name);
        if let Some(t) = target {
            if let Some(cells) = clients[t].board {
                ships_are_left_while_parts_are(after_shot(cells, shot));
            }
        }
    }
}

/// Shooting at the last part of a ship wins, and the game goes on while a part is left.
pub proof fn hitting_the_last_part_wins(cells: Seq<char>, shot: Shot)
    requires
        cells.len() == CELLS,
        on_board(shot.x as int, shot.y as int),
        ship_part(cells[place(shot.x as int, shot.y as int)]),
    ensures
        hits(Some(cells), shot),
        wins(Some(cells), shot) <==> parts_left(cells) == 1,
{
    a_shot_takes_at_most_one_part(cells, shot);
    ships_are_left_while_parts_are(after_shot(cells, shot));
}

/// Every message keeps the clients valid ones.
pub proof fn messages_keep_the_clients_valid(
    clients: Clients,
    order: Seq<u64>,
    id: u64,
    peer: Seq<char>,
    msg: Seq<char>,
    now: u64,
)
    requires
        valid_clients(clients),
        walks(order, enrolled(clients, id, msg, now)),
    ensures
        valid_clients(effect(clients, order, id, peer, msg, now).0),
{
    let after = effect(clients, order, id, peer, msg, now).0;
    assert forall|c: u64| #[trigger] after.contains_key(c) implies valid_client(after[c]) by {
        if join_of(msg) is Some {
            let (name, board_str) = join_of(msg)->0;
            a_join_is_what_it_spells(msg);
            a_read_board_is_whole(board_str);
            if c != id {
                assert(clients.contains_key(c));
            }
        } else if shot_of(msg) is Some {
            a_shot_touches_one_cell(clients, order, id, peer, msg, now);
            assert(clients.contains_key(c));
        }
    }
}

} // verus!
