//! The clients that have joined.
use std::collections::HashMap;
use vstd::prelude::*;
use vstd::std_specs::iter::IteratorSpec;

use crate::board::{Board, CELLS};
use crate::protocol::valid_name;

verus! {

broadcast use vstd::std_specs::hash::group_hash_axioms;

/// Information stored about a connected client after they send a join message.
#[derive(Debug)]
pub struct ClientInfo {
    /// The player/client name extracted from the join message.
    pub name: String,
    /// The raw board string extracted from the join message.
    pub board_str: String,
    /// Parsed 10x10 board (if valid).
    pub board: Option<Board>,
    /// When this client sent their join message, on the server's clock; used to
    /// determine turn order.
    pub joined_at: u64,
}

impl Clone for ClientInfo {
    fn clone(&self) -> (r: Self)
        ensures
            r == *self,
    {
        ClientInfo {
            name: self.name.clone(),
            board_str: self.board_str.clone(),
            board: match &self.board {
                Some(b) => Some(b.clone()),
                None => None,
            },
            joined_at: self.joined_at,
        }
    }
}

/// What is known of a client.
pub struct Client {
    pub name: Seq<char>,
    pub board_str: Seq<char>,
    pub board: Option<Seq<char>>,
    pub joined_at: u64,
}

impl View for ClientInfo {
    type V = Client;

    open spec fn view(&self) -> Client {
        Client {
            name: self.name@,
            board_str: self.board_str@,
            board: match self.board {
                Some(b) => Some(b@),
                None => None,
            },
            joined_at: self.joined_at,
        }
    }
}

/// The clients that have joined, each under the number of its connection.
pub type Clients = Map<u64, Client>;

/// What holds of a client at all times: its name is a valid one, and its board,
/// where it has one, is whole.
pub open spec fn valid_client(c: Client) -> bool {
    &&& valid_name(c.name)
    &&& c.board matches Some(cells) ==> cells.len() == CELLS
}

/// Every client is a valid one.
pub open spec fn valid_clients(clients: Clients) -> bool {
    forall|id: u64| #[trigger] clients.contains_key(id) ==> valid_client(clients[id])
}

/// `order` walks over the clients: it meets each of them once.
pub open spec fn walks(order: Seq<u64>, clients: Clients) -> bool {
    &&& order.no_duplicates()
    &&& order.to_set() == clients.dom()
}

/// The client that joined first; of several at the same moment, the one that `order`
/// meets first.
pub open spec fn first_joiner(order: Seq<u64>, clients: Clients) -> Option<u64>
    decreases order.len(),
{
    if order.len() == 0 {
        None
    } else {
        let last = order.last();
        match first_joiner(order.drop_last(), clients) {
            Some(id) => if clients[last].joined_at < clients[id].joined_at {
                Some(last)
            } else {
                Some(id)
            },
            None => Some(last),
        }
    }
}

/// The first client that `order` meets whose name is `name`.
pub open spec fn named(order: Seq<u64>, clients: Clients, name: Seq<char>) -> Option<u64>
    decreases order.len(),
{
    if order.len() == 0 {
        None
    } else if clients[order[0]].name == name {
        Some(order[0])
    } else {
        named(order.skip(1), clients, name)
    }
}

/// The clients that have joined and not yet left.
pub struct Registry {
    clients: HashMap<u64, ClientInfo>,
}

impl View for Registry {
    type V = Clients;

    closed spec fn view(&self) -> Clients {
        self.clients@.map_values(|c: ClientInfo| c@)
    }
}

impl Registry {
    /// A registry without clients.
    pub fn new() -> (r: Self)
        ensures
            r@ == Map::<u64, Client>::empty(),
    {
        let r = Registry { clients: HashMap::new() };
        assert(r@ =~= Map::<u64, Client>::empty());
        r
    }

    /// The number of clients.
    pub fn len(&self) -> (r: usize)
        ensures
            r == self@.len(),
    {
        assert(self@.dom() =~= self.clients@.dom());
        self.clients.len()
    }

    /// Whether there are no clients.
    pub fn is_empty(&self) -> (r: bool)
        ensures
            r == self@.is_empty(),
    {
        assert(self@.dom() =~= self.clients@.dom());
        self.clients.is_empty()
    }

    /// The client of connection `id`.
    pub fn get(&self, id: u64) -> (r: Option<&ClientInfo>)
        ensures
            r is Some <==> self@.contains_key(id),
            r matches Some(c) ==> self@[id] == c@,
    {
        self.clients.get(&id)
    }

    /// Enters `info` for connection `id`, in place of what was there.
    pub fn insert(&mut self, id: u64, info: ClientInfo)
        ensures
            final(self)@ == old(self)@.insert(id, info@),
    {
        self.clients.insert(id, info);
        assert(self@ =~= old(self)@.insert(id, info@));
    }

    /// Takes out the client of connection `id`.
    pub fn remove(&mut self, id: u64) -> (r: Option<ClientInfo>)
        ensures
            final(self)@ == old(self)@.remove(id),
            r is Some <==> old(self)@.contains_key(id),
            r matches Some(c) ==> old(self)@[id] == c@,
    {
        let r = self.clients.remove(&id);
        assert(self@ =~= old(self)@.remove(id));
        r
    }

    /// There is an order in which the registry is walked.
    pub proof fn can_be_walked(&self)
        ensures
            exists|order: Seq<u64>| walks(order, self@),
    {
        let keys = vstd::std_specs::hash::spec_keys_iter(&self.clients).remaining();
        let order = keys.unref();
        assert forall|i: int, j: int|
            0 <= i < order.len() && 0 <= j < order.len() && i != j implies order[i] != order[j] by {
            assert(keys[i] != keys[j]);
        }
        assert(self@.dom() =~= self.clients@.dom());
        assert(walks(order, self@));
    }

    /// The connections of all clients, in the order in which the registry is walked.
    pub fn ids(&self) -> (r: Vec<u64>)
        ensures
            walks(r@, self@),
    {
        let mut r: Vec<u64> = Vec::new();
        let keys = self.clients.keys();
        let ghost order = keys.remaining().unref();
        assert(order.no_duplicates()) by {
            assert forall|i: int, j: int|
                0 <= i < order.len() && 0 <= j < order.len() && i != j implies order[i]
                != order[j] by {
                assert(keys.remaining()[i] != keys.remaining()[j]);
            }
        }
        for id in it: keys
            invariant
                it.seq().unref() == order,
                r@ == order.take(it.index() as int),
        {
            assert(*id == order[it.index() as int]);
            r.push(*id);
        }
        assert(r@ =~= order);
        assert(self@.dom() =~= self.clients@.dom());
        r
    }
}

// ---------------------------------------------------------------------------
// Laws
// ---------------------------------------------------------------------------

/// A walk over the clients meets as many as there are, and all of them.
pub proof fn a_walk_meets_every_client(order: Seq<u64>, clients: Clients)
    requires
        walks(order, clients),
    ensures
        order.len() == clients.len(),
        clients.dom().finite(),
        forall|i: int| 0 <= i < order.len() ==> clients.contains_key(#[trigger] order[i]),
        forall|id: u64|
            #[trigger] clients.contains_key(id) ==> exists|i: int|
                0 <= i < order.len() && order[i] == id,
{
    order.unique_seq_to_set();
    assert forall|i: int| 0 <= i < order.len() implies clients.contains_key(
        #[trigger] order[i],
    ) by {
        assert(order.to_set().contains(order[i]));
    }
    assert forall|id: u64| #[trigger] clients.contains_key(id) implies exists|i: int|
        0 <= i < order.len() && order[i] == id by {
        assert(order.to_set().contains(id));
    }
}

/// The first joiner among the clients that a sequence meets.
pub(crate) proof fn lemma_first_joiner(order: Seq<u64>, clients: Clients)
    ensures
        order.len() == 0 <==> first_joiner(order, clients) is None,
        first_joiner(order, clients) matches Some(id) ==> exists|k: int|
            0 <= k < order.len() && #[trigger] order[k] == id && (forall|j: int|
                0 <= j < k ==> clients[id].joined_at < clients[#[trigger] order[j]].joined_at) && (
            forall|j: int|
                0 <= j < order.len() ==> clients[id].joined_at
                    <= clients[#[trigger] order[j]].joined_at),
    decreases order.len(),
{
    if order.len() > 0 {
        let rest = order.drop_last();
        lemma_first_joiner(rest, clients);
        let n = order.len() - 1;
        if let Some(best) = first_joiner(rest, clients) {
            let k = choose|k: int|
                0 <= k < rest.len() && #[trigger] rest[k] == best && (forall|j: int|
                    0 <= j < k ==> clients[best].joined_at < clients[#[trigger] rest[j]].joined_at)
                    && (forall|j: int|
                    0 <= j < rest.len() ==> clients[best].joined_at
                        <= clients[#[trigger] rest[j]].joined_at);
            assert forall|j: int| 0 <= j < n implies clients[best].joined_at
                <= clients[#[trigger] order[j]].joined_at by {
                assert(order[j] == rest[j]);
            }
            if clients[order[n]].joined_at < clients[best].joined_at {
                assert(order[n] == order.last());
            } else {
                assert(order[k] == best);
                assert forall|j: int| 0 <= j < k implies clients[best].joined_at
                    < clients[#[trigger] order[j]].joined_at by {
                    assert(order[j] == rest[j]);
                }
            }
        } else {
            assert(order[n] == order.last());
        }
    }
}

/// Where there are clients, one of them is the first joiner, and none joined before it.
pub proof fn the_first_joiner_joined_first(order: Seq<u64>, clients: Clients)
    requires
        walks(order, clients),
    ensures
        first_joiner(order, clients) is None <==> clients.len() == 0,
        first_joiner(order, clients) matches Some(id) ==> {
            &&& clients.contains_key(id)
            &&& forall|other: u64| #[trigger]
                clients.contains_key(other) ==> clients[id].joined_at <= clients[other].joined_at
        },
{
    a_walk_meets_every_client(order, clients);
    lemma_first_joiner(order, clients);
}

/// Where no two clients joined at the same moment, the first joiner is the same on
/// every walk.
pub proof fn the_first_joiner_is_the_same_on_every_walk(
    one: Seq<u64>,
    other: Seq<u64>,
    clients: Clients,
)
    requires
        walks(one, clients),
        walks(other, clients),
        forall|a: u64, b: u64|
            #[trigger] clients.contains_key(a) && #[trigger] clients.contains_key(b) && a != b
                ==> clients[a].joined_at != clients[b].joined_at,
    ensures
        first_joiner(one, clients) == first_joiner(other, clients),
{
    the_first_joiner_joined_first(one, clients);
    the_first_joiner_joined_first(other, clients);
}

/// A client is found by its name where there is one, and on no walk where there is none.
pub proof fn a_name_finds_its_client(order: Seq<u64>, clients: Clients, name: Seq<char>)
    requires
        walks(order, clients),
    ensures
        named(order, clients, name) matches Some(id) ==> clients.contains_key(id)
            && clients[id].name == name,
        named(order, clients, name) is None ==> forall|id: u64| #[trigger]
            clients.contains_key(id) ==> clients[id].name != name,
{
    a_walk_meets_every_client(order, clients);
    lemma_named(order, clients, name);
}

/// The first client of that name among those that a sequence meets.
proof fn lemma_named(order: Seq<u64>, clients: Clients, name: Seq<char>)
    ensures
        named(order, clients, name) matches Some(id) ==> clients[id].name == name && exists|i: int|
            0 <= i < order.len() && order[i] == id,
        named(order, clients, name) is None ==> forall|i: int|
            0 <= i < order.len() ==> clients[#[trigger] order[i]].name != name,
    decreases order.len(),
{
    if order.len() > 0 && clients[order[0]].name != name {
        let rest = order.skip(1);
        lemma_named(rest, clients, name);
        if let Some(id) = named(rest, clients, name) {
            let i = choose|i: int| 0 <= i < rest.len() && rest[i] == id;
            assert(order[i + 1] == id);
        } else {
            assert forall|i: int| 0 <= i < order.len() implies clients[#[trigger] order[i]].name
                != name by {
                if i > 0 {
                    assert(rest[i - 1] == order[i]);
                }
            }
        }
    }
}

/// Where no other client has its name, a client is found by its name on every walk.
pub proof fn a_name_of_its_own_is_found_on_every_walk(order: Seq<u64>, clients: Clients, id: u64)
    requires
        walks(order, clients),
        clients.contains_key(id),
        forall|other: u64| #[trigger]
            clients.contains_key(other) && other != id ==> clients[other].name != clients[id].name,
    ensures
        named(order, clients, clients[id].name) == Some(id),
{
    a_name_finds_its_client(order, clients, clients[id].name);
}

} // verus!
