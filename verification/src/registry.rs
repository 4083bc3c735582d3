//! The one connection kept per peer.
//!
//! Two nodes may dial each other at once; both then keep the connection
//! dialed by the node with the smaller name and close the other. A peer that
//! restarted, and so has a higher generation, always replaces its old
//! connection.
use crate::names::{lemma_name_order_total, name_lt, NodeName};
use vstd::hash_map::StringHashMap;
use vstd::prelude::*;

verus! {

/// A connection registered for a peer.
#[derive(Debug)]
pub struct Registered {
    /// Tells the connection apart from the ones before and after it.
    pub conn: u64,
    /// The peer's generation, from its hello.
    pub generation: u64,
    /// Which side opened the connection.
    pub dialer: NodeName,
}

/// A registered connection, as a value.
pub struct RegisteredView {
    pub conn: u64,
    pub generation: u64,
    pub dialer: Seq<char>,
}

impl View for Registered {
    type V = RegisteredView;

    open spec fn view(&self) -> RegisteredView {
        RegisteredView { conn: self.conn, generation: self.generation, dialer: self.dialer@ }
    }
}

impl Clone for Registered {
    fn clone(&self) -> (r: Self)
        ensures
            r == *self,
    {
        Registered { conn: self.conn, generation: self.generation, dialer: self.dialer.clone() }
    }
}

/// The name that comes first of two.
pub open spec fn smaller(a: Seq<char>, b: Seq<char>) -> Seq<char> {
    if name_lt(b, a) { b } else { a }
}

/// Whether a connection to `peer` in `generation`, opened by `dialer`, is to
/// replace the open one `existing`, as decided by the node `local`: a newer
/// generation wins, an older one loses; in the same generation a connection
/// opened by the same side is a reconnection and wins, and of two opened by
/// different sides the one opened by the smaller name wins.
pub open spec fn prefers_new(
    local: Seq<char>,
    peer: Seq<char>,
    generation: u64,
    dialer: Seq<char>,
    existing: RegisteredView,
) -> bool {
    if generation > existing.generation {
        true
    } else if generation < existing.generation {
        false
    } else if dialer == existing.dialer {
        true
    } else {
        dialer == smaller(local, peer)
    }
}

/// The decision of [`prefers_new`].
pub fn prefer_new(
    local: &NodeName,
    peer: &NodeName,
    generation: u64,
    dialer: &NodeName,
    existing: &Registered,
) -> (r: bool)
    ensures
        r == prefers_new(local@, peer@, generation, dialer@, existing@),
{
    if generation > existing.generation {
        true
    } else if generation < existing.generation {
        false
    } else if dialer.same(&existing.dialer) {
        true
    } else {
        let smaller_name = if peer.precedes(local) {
            peer
        } else {
            local
        };
        dialer.same(smaller_name)
    }
}

/// What registering a connection came to.
#[derive(Debug)]
pub struct RegisterOutcome {
    /// Whether the connection was kept; if not, it is to be closed.
    pub kept: bool,
    /// The open connection it replaced, which is to be closed: whatever was
    /// in flight on it may be lost.
    pub replaced: Option<Registered>,
}

/// The connection kept per peer.
pub struct Connections {
    conns: StringHashMap<Registered>,
}

/// The dialer whose connection a node `local` keeps, once both connections
/// between it and `peer` have been offered to it in the order given, both in
/// the peer's generation `generation`, with no open connection before.
pub open spec fn settled_dialer(
    local: Seq<char>,
    peer: Seq<char>,
    generation: u64,
    first: Seq<char>,
    second: Seq<char>,
) -> Seq<char> {
    let existing = RegisteredView { conn: 0, generation, dialer: first };
    if prefers_new(local, peer, generation, second, existing) { second } else { first }
}

/// When two nodes dial each other at once, both keep the same connection: the
/// one dialed by the node with the smaller name, in whatever order each of
/// them gets to see the two.
pub proof fn lemma_simultaneous_dials_settle(
    a: Seq<char>,
    b: Seq<char>,
    generation_a: u64,
    generation_b: u64,
)
    requires
        a != b,
    ensures
        settled_dialer(a, b, generation_b, a, b) == smaller(a, b),
        settled_dialer(a, b, generation_b, b, a) == smaller(a, b),
        settled_dialer(b, a, generation_a, a, b) == smaller(a, b),
        settled_dialer(b, a, generation_a, b, a) == smaller(a, b),
{
    lemma_name_order_total(a, b);
}

/// A peer that restarted, and so has a higher generation, always replaces
/// its old connection, whichever side dialed; a connection from an older
/// incarnation never replaces one from a newer; and a reconnection opened by
/// the same side as the connection it replaces wins.
pub proof fn lemma_newer_incarnations_replace_older_connections(
    local: Seq<char>,
    peer: Seq<char>,
    generation: u64,
    dialer: Seq<char>,
    existing: RegisteredView,
)
    ensures
        generation > existing.generation ==> prefers_new(local, peer, generation, dialer, existing),
        generation < existing.generation ==> !prefers_new(local, peer, generation, dialer, existing),
        generation == existing.generation && dialer == existing.dialer ==> prefers_new(
            local,
            peer,
            generation,
            dialer,
            existing,
        ),
{
}

impl Connections {
    /// The registered connections, by peer name.
    pub closed spec fn view_map(&self) -> Map<Seq<char>, RegisteredView> {
        self.conns@.map_values(|r: Registered| r@)
    }

    /// No connections yet.
    pub fn new() -> (r: Connections)
        ensures
            r.view_map() == Map::<Seq<char>, RegisteredView>::empty(),
    {
        let r = Connections { conns: StringHashMap::new() };
        assert(r.view_map() =~= Map::<Seq<char>, RegisteredView>::empty());
        r
    }

    /// The connection registered for `peer`, open or not.
    pub fn get(&self, peer: &NodeName) -> (r: Option<&Registered>)
        ensures
            match r {
                Some(reg) => self.view_map().contains_key(peer@) && self.view_map()[peer@] == reg@,
                None => !self.view_map().contains_key(peer@),
            },
    {
        self.conns.get(peer.as_str())
    }

    /// Makes connection `conn` to `peer`, in the peer's `generation` and
    /// opened by `dialer`, the connection to `peer`, unless the open one
    /// already there is preferred. `existing_open` tells whether the
    /// connection registered for `peer`, if any, is still open; a closed one
    /// is simply replaced.
    pub fn register(
        &mut self,
        local: &NodeName,
        peer: &NodeName,
        generation: u64,
        conn: u64,
        dialer: &NodeName,
        existing_open: bool,
    ) -> (r: RegisterOutcome)
        ensures
            ({
                let before = old(self).view_map();
                let contested = before.contains_key(peer@) && existing_open;
                let new = RegisteredView { conn, generation, dialer: dialer@ };
                &&& r.kept == (!contested || prefers_new(local@, peer@, generation, dialer@, before[peer@]))
                &&& r.kept ==> final(self).view_map() == before.insert(peer@, new)
                &&& !r.kept ==> final(self).view_map() == before
                &&& match r.replaced {
                    Some(old_reg) => r.kept && contested && old_reg@ == before[peer@],
                    None => !(r.kept && contested),
                }
            }),
    {
        let ghost before = self.view_map();
        let mut replaced: Option<Registered> = None;
        match self.conns.get(peer.as_str()) {
            Some(existing) => {
                if existing_open {
                    if !prefer_new(local, peer, generation, dialer, existing) {
                        return RegisterOutcome { kept: false, replaced: None };
                    }
                    replaced = Some(existing.clone());
                }
            },
            None => {},
        }
        let new = Registered { conn, generation, dialer: dialer.clone() };
        self.conns.insert(peer.as_str().to_owned(), new);
        assert(self.view_map() =~= before.insert(peer@, RegisteredView { conn, generation, dialer: dialer@ }));
        RegisterOutcome { kept: true, replaced }
    }

    /// Forgets the connection to `peer` if it is still connection `conn`,
    /// and returns the generation it was in: the loss of a connection that was
    /// replaced or forgotten on purpose is not to be reported.
    pub fn unregister(&mut self, peer: &NodeName, conn: u64) -> (r: Option<u64>)
        ensures
            ({
                let before = old(self).view_map();
                let current = before.contains_key(peer@) && before[peer@].conn == conn;
                &&& current ==> r == Some(before[peer@].generation) && final(self).view_map() == before.remove(peer@)
                &&& !current ==> r is None && final(self).view_map() == before
            }),
    {
        let ghost before = self.view_map();
        let generation = match self.conns.get(peer.as_str()) {
            Some(registered) => {
                if registered.conn != conn {
                    return None;
                }
                registered.generation
            },
            None => {
                return None;
            },
        };
        self.conns.remove(peer.as_str());
        assert(self.view_map() =~= before.remove(peer@));
        Some(generation)
    }

    /// Forgets the connection to `peer` if it belongs to `generation` or an
    /// older one, so the next message dials afresh, and returns it to be
    /// closed. Called when the node has been declared down or has moved.
    pub fn forget(&mut self, peer: &NodeName, generation: u64) -> (r: Option<u64>)
        ensures
            ({
                let before = old(self).view_map();
                let outdated = before.contains_key(peer@) && before[peer@].generation <= generation;
                &&& outdated ==> r == Some(before[peer@].conn) && final(self).view_map() == before.remove(peer@)
                &&& !outdated ==> r is None && final(self).view_map() == before
            }),
    {
        let ghost before = self.view_map();
        let conn = match self.conns.get(peer.as_str()) {
            Some(registered) => {
                if registered.generation > generation {
                    return None;
                }
                registered.conn
            },
            None => {
                return None;
            },
        };
        self.conns.remove(peer.as_str());
        assert(self.view_map() =~= before.remove(peer@));
        Some(conn)
    }
}

} // verus!
