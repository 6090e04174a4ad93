//! A client's connection: what is done on each event.
use vstd::prelude::*;

use crate::game::react;
use crate::game::{effect, enrolled, messages_keep_the_clients_valid};
use crate::game::{Effect, Reaction};
use crate::protocol::{a_written_message_is_read, fields, join_of, line_of, message_of, shot_of};
use crate::protocol::{greeting, read_message, write_message};
use crate::registry::{a_name_finds_its_client, valid_client, valid_clients, walks};
use crate::registry::{Clients, Registry};

verus! {

/// What can happen on a client's connection.
pub enum Event {
    /// The client has sent a line.
    Line(String),
    /// The client has closed the connection.
    EndOfStream,
    /// Reading from the client or writing to it has failed.
    Failure,
    /// A message was announced to everyone.
    Announced(String),
    /// This number of announced messages came too fast and are lost.
    Lagged(u64),
    /// Nothing will be announced any more.
    Closed,
}

/// What is to be done on an event, besides the change of the registry.
pub enum Step {
    /// Nothing.
    Wait,
    /// Announce what the client's message brings about.
    React(Reaction),
    /// Write this to the client.
    Write(String),
    /// Close the connection.
    Close,
}

/// What is to be done on an event, besides the change of the clients.
pub enum Deed {
    Wait,
    React(Effect),
    Write(Seq<char>),
    Close,
}

impl View for Step {
    type V = Deed;

    open spec fn view(&self) -> Deed {
        match *self {
            Step::Wait => Deed::Wait,
            Step::React(reaction) => Deed::React(reaction@),
            Step::Write(text) => Deed::Write(text@),
            Step::Close => Deed::Close,
        }
    }
}

/// What is to be done as soon as a client is connected, before any event: greet it.
pub fn connected() -> (r: Step)
    ensures
        r@ == Deed::Write("G\n"@),
{
    Step::Write(greeting())
}

/// The clients that are walked on `event`: the sender is among them if the event is
/// the line of a join.
pub open spec fn walked(clients: Clients, id: u64, event: Event, now: u64) -> Clients {
    match event {
        Event::Line(line) => enrolled(clients, id, message_of(line@), now),
        _ => clients,
    }
}

/// The clients after `event` on the connection `id` to `peer` at the moment `now`,
/// and what is to be done. `order` is the order in which the clients are walked.
pub open spec fn outcome(
    clients: Clients,
    order: Seq<u64>,
    id: u64,
    peer: Seq<char>,
    event: Event,
    now: u64,
) -> (Clients, Deed) {
    match event {
        Event::Line(line) => {
            let msg = message_of(line@);
            if msg.len() == 0 {
                (clients, Deed::Wait)
            } else {
                let (after, effect) = effect(clients, order, id, peer, msg, now);
                (after, Deed::React(effect))
            }
        },
        Event::EndOfStream | Event::Failure | Event::Closed => (clients.remove(id), Deed::Close),
        Event::Announced(msg) => (clients, Deed::Write(line_of(msg@))),
        Event::Lagged(_) => (clients, Deed::Wait),
    }
}

/// Does what `event` on the connection `id` to `peer` at the moment `now` asks for,
/// as far as the registry goes, and says what else is to be done. The order in which
/// the registry is walked is not known beforehand.
pub fn step(registry: &mut Registry, id: u64, peer: &str, event: Event, now: u64) -> (r: Step)
    ensures
        exists|order: Seq<u64>| #[trigger]
            walks(order, walked(old(registry)@, id, event, now)) && (final(registry)@, r@)
                == outcome(old(registry)@, order, id, peer@, event, now),
{
    let ghost clients = walked(registry@, id, event, now);
    proof {
        registry.can_be_walked();
    }
    let ghost order = choose|order: Seq<u64>| walks(order, registry@);
    match event {
        Event::Line(line) => {
            let msg = read_message(line.as_str());
            if msg.as_str().is_empty() {
                assert(join_of(msg@) is None);
                assert(walks(order, clients));
                return Step::Wait;
            }
            Step::React(react(registry, id, peer, msg, now))
        },
        Event::EndOfStream | Event::Failure | Event::Closed => {
            assert(walks(order, clients));
            registry.remove(id);
            Step::Close
        },
        Event::Announced(msg) => {
            assert(walks(order, clients));
            Step::Write(write_message(msg.as_str()))
        },
        Event::Lagged(_) => {
            assert(walks(order, clients));
            Step::Wait
        },
    }
}

// ---------------------------------------------------------------------------
// Laws
// ---------------------------------------------------------------------------

/// There are no invalid clients at the start, and every event keeps the clients valid
/// ones: each has a name that is not empty and has no '|' in it, and a board that is
/// whole or none.
pub proof fn events_keep_the_clients_valid(
    clients: Clients,
    order: Seq<u64>,
    id: u64,
    peer: Seq<char>,
    event: Event,
    now: u64,
)
    requires
        walks(order, walked(clients, id, event, now)),
    ensures
        valid_clients(Map::empty()),
        valid_clients(clients) ==> valid_clients(
            outcome(clients, order, id, peer, event, now).0,
        ),
{
    if valid_clients(clients) {
        if let Event::Line(line) = event {
            messages_keep_the_clients_valid(clients, order, id, peer, message_of(line@), now);
        }
        let after = outcome(clients, order, id, peer, event, now).0;
        assert forall|c: u64| #[trigger] after.contains_key(c) implies valid_client(after[c]) by {
            if !(event is Line) {
                assert(clients.contains_key(c));
            }
        }
    }
}

/// The line of a join, and nothing else, puts a client among the clients; the end of
/// its own connection, and nothing else, takes one out.
pub proof fn clients_come_by_joining_and_go_by_leaving(
    clients: Clients,
    order: Seq<u64>,
    id: u64,
    peer: Seq<char>,
    event: Event,
    now: u64,
)
    requires
        walks(order, walked(clients, id, event, now)),
    ensures
        ({
            let (after, deed) = outcome(clients, order, id, peer, event, now);
            if deed is Close {
                after == clients.remove(id)
            } else {
                match event {
                    Event::Line(line) => if join_of(message_of(line@)) is Some {
                        after.dom() == clients.dom().insert(id)
                    } else {
                        after.dom() == clients.dom()
                    },
                    _ => after == clients,
                }
            }
        }),
{
    let after = outcome(clients, order, id, peer, event, now).0;
    if let Event::Line(line) = event {
        let msg = message_of(line@);
        if join_of(msg) is Some {
            assert(fields(msg).len() >= 3);
            assert(after.dom() =~= clients.dom().insert(id));
        } else if shot_of(msg) is Some {
            let name = shot_of(msg)->0.target_name;
            a_name_finds_its_client(order, clients, name);
            assert(after.dom() =~= clients.dom());
        }
    }
}

/// A client that joins and then leaves is gone without a trace: the clients are those
/// that were there before.
pub proof fn leaving_undoes_a_join(
    clients: Clients,
    order1: Seq<u64>,
    order2: Seq<u64>,
    id: u64,
    peer: Seq<char>,
    line: String,
    now1: u64,
    now2: u64,
)
    requires
        !clients.contains_key(id),
        join_of(message_of(line@)) is Some,
    ensures
        ({
            let joined = outcome(clients, order1, id, peer, Event::Line(line), now1).0;
            outcome(joined, order2, id, peer, Event::EndOfStream, now2) == (clients, Deed::Close)
        }),
{
    let joined = outcome(clients, order1, id, peer, Event::Line(line), now1).0;
    assert(fields(message_of(line@)).len() >= 3);
    assert(joined.remove(id) =~= clients);
}

/// A line without a message, and messages that were lost, change nothing.
pub proof fn empty_lines_and_lost_messages_change_nothing(
    clients: Clients,
    order: Seq<u64>,
    id: u64,
    peer: Seq<char>,
    line: String,
    lost: u64,
    now: u64,
)
    requires
        message_of(line@).len() == 0,
    ensures
        outcome(clients, order, id, peer, Event::Line(line), now) == (clients, Deed::Wait),
        outcome(clients, order, id, peer, Event::Lagged(lost), now) == (clients, Deed::Wait),
{
}

/// What is announced reaches a client as a line of its own, from which it reads what
/// was announced, unless that ended in a line break.
pub proof fn what_is_announced_is_read(
    clients: Clients,
    order: Seq<u64>,
    id: u64,
    peer: Seq<char>,
    msg: String,
    now: u64,
)
    requires
        msg@.len() > 0 ==> msg@.last() != '\n' && msg@.last() != '\r',
    ensures
        ({
            let (after, deed) = outcome(clients, order, id, peer, Event::Announced(msg), now);
            &&& after == clients
            &&& deed is Write
            &&& message_of(deed->Write_0) == msg@
        }),
{
    a_written_message_is_read(msg@);
}

/// An event on a connection, with the clients that it finds, the order in which they
/// are walked, and when it happens. Between two events of a connection those of others
/// may have changed the clients.
pub struct Moment {
    pub clients: Clients,
    pub order: Seq<u64>,
    pub event: Event,
    pub now: u64,
}

/// `texts`, and behind them what `deed` writes, if it does.
pub open spec fn with_written(texts: Seq<Seq<char>>, deed: Deed) -> Seq<Seq<char>> {
    match deed {
        Deed::Write(text) => texts.push(text),
        _ => texts,
    }
}

/// What is written, in order, on the connection `id` to `peer` up to the last of
/// `moments`: on being connected, and then on each event.
pub open spec fn writes(moments: Seq<Moment>, id: u64, peer: Seq<char>) -> Seq<Seq<char>>
    decreases moments.len(),
{
    if moments.len() == 0 {
        with_written(Seq::empty(), Deed::Write("G\n"@))
    } else {
        let m = moments.last();
        with_written(
            writes(moments.drop_last(), id, peer),
            outcome(m.clients, m.order, id, peer, m.event, m.now).1,
        )
    }
}

/// The messages that were announced, in order.
pub open spec fn announced(moments: Seq<Moment>) -> Seq<Seq<char>>
    decreases moments.len(),
{
    if moments.len() == 0 {
        Seq::empty()
    } else {
        match moments.last().event {
            Event::Announced(msg) => announced(moments.drop_last()).push(msg@),
            _ => announced(moments.drop_last()),
        }
    }
}

/// A client is written the greeting first, and after it every announced message, once
/// and in order, each in a line of its own; and nothing else.
pub proof fn a_client_is_greeted_and_written_every_announcement(
    moments: Seq<Moment>,
    id: u64,
    peer: Seq<char>,
)
    ensures
        writes(moments, id, peer) == seq!["G\n"@] + announced(moments).map_values(
            |msg: Seq<char>| line_of(msg),
        ),
    decreases moments.len(),
{
    if moments.len() > 0 {
        a_client_is_greeted_and_written_every_announcement(moments.drop_last(), id, peer);
    }
    assert(writes(moments, id, peer) =~= seq!["G\n"@] + announced(moments).map_values(
        |msg: Seq<char>| line_of(msg),
    ));
}

} // verus!
