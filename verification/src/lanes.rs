//! The pipes a node keeps to its peers: one per peer, protocol and delivery.
//!
//! Each pipe is a bounded queue that a task empties into a connection to the
//! peer. Here a pipe is known by a number that tells it apart from the ones
//! before and after it; the table decides when a pipe can be handed out again,
//! and which pipes end when a peer is forgotten.
use crate::member::Member;
use crate::message::Delivery;
use crate::names::{NodeAddr, NodeName};
use crate::wire::Protocol;
use vstd::prelude::*;

verus! {

/// A pipe to a peer.
#[derive(Debug)]
pub struct Lane {
    /// The peer it leads to.
    pub node: NodeName,
    /// Which layer of the peer its messages are for.
    pub protocol: Protocol,
    /// How reliably its messages must arrive.
    pub delivery: Delivery,
    /// Where the peer was when the pipe was started.
    pub addr: NodeAddr,
    /// Tells the pipe apart from the ones before and after it.
    pub id: u64,
}

/// Where a pipe leads, and which pipe it is.
pub struct LaneView {
    pub addr: Seq<char>,
    pub id: u64,
}

/// Which pipe `l` is: the peer's name, the protocol and the delivery.
pub open spec fn lane_key(l: Lane) -> (Seq<char>, u8, Delivery) {
    (l.node@, l.protocol.0, l.delivery)
}

/// Where `l` leads, and which pipe it is.
pub open spec fn lane_view(l: Lane) -> LaneView {
    LaneView { addr: l.addr@, id: l.id }
}

/// The pipes in `s`, by key.
pub open spec fn lane_map(s: Seq<Lane>) -> Map<(Seq<char>, u8, Delivery), LaneView>
    decreases s.len(),
{
    if s.len() == 0 {
        Map::empty()
    } else {
        lane_map(s.drop_last()).insert(lane_key(s.last()), lane_view(s.last()))
    }
}

/// No two pipes in `s` have the same key.
pub open spec fn keys_unique(s: Seq<Lane>) -> bool {
    forall|i: int, j: int|
        0 <= i < s.len() && 0 <= j < s.len() && i != j ==> lane_key(#[trigger] s[i]) != lane_key(
            #[trigger] s[j],
        )
}

/// The pipe of `pipes` to hand out again for `key` to a peer now at `addr`:
/// the one started for that key, unless it leads to where the peer used to be.
pub open spec fn reusable(
    pipes: Map<(Seq<char>, u8, Delivery), LaneView>,
    key: (Seq<char>, u8, Delivery),
    addr: Seq<char>,
) -> Option<u64> {
    if pipes.contains_key(key) && pipes[key].addr == addr {
        Some(pipes[key].id)
    } else {
        None
    }
}

/// The pipes of `pipes` that lead to `node` (`to_node`), or those that
/// don't.
pub open spec fn part(
    pipes: Map<(Seq<char>, u8, Delivery), LaneView>,
    node: Seq<char>,
    to_node: bool,
) -> Map<(Seq<char>, u8, Delivery), LaneView> {
    Map::new(
        |k: (Seq<char>, u8, Delivery)| pipes.contains_key(k) && (k.0 == node) == to_node,
        |k: (Seq<char>, u8, Delivery)| pipes[k],
    )
}

proof fn lemma_lane_map_lookup(s: Seq<Lane>)
    requires
        keys_unique(s),
    ensures
        forall|k: (Seq<char>, u8, Delivery)|
            #[trigger] lane_map(s).contains_key(k) <==> exists|i: int| 0 <= i < s.len() && lane_key(s[i]) == k,
        forall|i: int| 0 <= i < s.len() ==> #[trigger] lane_map(s)[lane_key(s[i])] == lane_view(s[i]),
    decreases s.len(),
{
    if s.len() > 0 {
        let t = s.drop_last();
        assert forall|i: int, j: int|
            0 <= i < t.len() && 0 <= j < t.len() && i != j implies lane_key(#[trigger] t[i]) != lane_key(
            #[trigger] t[j],
        ) by {
            assert(t[i] == s[i] && t[j] == s[j]);
        }
        lemma_lane_map_lookup(t);
        assert(lane_map(s) == lane_map(t).insert(lane_key(s.last()), lane_view(s.last())));
        assert forall|k: (Seq<char>, u8, Delivery)| #[trigger]
            lane_map(s).contains_key(k) <==> exists|i: int| 0 <= i < s.len() && lane_key(s[i]) == k by {
            if lane_map(s).contains_key(k) && k != lane_key(s.last()) {
                assert(lane_map(t).contains_key(k));
                let i = choose|i: int| 0 <= i < t.len() && lane_key(t[i]) == k;
                assert(s[i] == t[i]);
            }
            if exists|i: int| 0 <= i < s.len() && lane_key(s[i]) == k {
                let i = choose|i: int| 0 <= i < s.len() && lane_key(s[i]) == k;
                if i < s.len() - 1 {
                    assert(t[i] == s[i]);
                }
            }
        }
        assert forall|i: int| 0 <= i < s.len() implies #[trigger] lane_map(s)[lane_key(s[i])] == lane_view(
            s[i],
        ) by {
            if i < s.len() - 1 {
                assert(t[i] == s[i]);
                assert(lane_key(s[i]) != lane_key(s[s.len() - 1]));
            }
        }
    }
}

proof fn lemma_lane_map_push(s: Seq<Lane>, l: Lane)
    requires
        keys_unique(s),
        !lane_map(s).contains_key(lane_key(l)),
    ensures
        keys_unique(s.push(l)),
        lane_map(s.push(l)) == lane_map(s).insert(lane_key(l), lane_view(l)),
{
    lemma_lane_map_lookup(s);
    assert(s.push(l).drop_last() =~= s);
    let u = s.push(l);
    assert forall|i: int, j: int| 0 <= i < u.len() && 0 <= j < u.len() && i != j implies lane_key(
        #[trigger] u[i],
    ) != lane_key(#[trigger] u[j]) by {
        if i < s.len() {
            assert(u[i] == s[i]);
        }
        if j < s.len() {
            assert(u[j] == s[j]);
        }
    }
}

proof fn lemma_lane_map_update(s: Seq<Lane>, i: int, l: Lane)
    requires
        keys_unique(s),
        0 <= i < s.len(),
        lane_key(l) == lane_key(s[i]),
    ensures
        keys_unique(s.update(i, l)),
        lane_map(s.update(i, l)) == lane_map(s).insert(lane_key(l), lane_view(l)),
{
    let u = s.update(i, l);
    assert forall|a: int, b: int| 0 <= a < u.len() && 0 <= b < u.len() && a != b implies lane_key(
        #[trigger] u[a],
    ) != lane_key(#[trigger] u[b]) by {
        assert(lane_key(u[a]) == lane_key(s[a]));
        assert(lane_key(u[b]) == lane_key(s[b]));
    }
    lemma_lane_map_lookup(s);
    lemma_lane_map_lookup(u);
    let target = lane_map(s).insert(lane_key(l), lane_view(l));
    assert forall|k: (Seq<char>, u8, Delivery)| #[trigger]
        lane_map(u).contains_key(k) <==> target.contains_key(k) by {
        if lane_map(u).contains_key(k) {
            let j = choose|j: int| 0 <= j < u.len() && lane_key(u[j]) == k;
            assert(lane_key(s[j]) == k);
        }
        if lane_map(s).contains_key(k) {
            let j = choose|j: int| 0 <= j < s.len() && lane_key(s[j]) == k;
            assert(lane_key(u[j]) == k);
        }
        if k == lane_key(l) {
            assert(lane_key(u[i]) == k);
        }
    }
    assert forall|k: (Seq<char>, u8, Delivery)| #[trigger] lane_map(u).contains_key(k) implies lane_map(u)[k]
        == target[k] by {
        let j = choose|j: int| 0 <= j < u.len() && lane_key(u[j]) == k;
        assert(lane_map(u)[lane_key(u[j])] == lane_view(u[j]));
        if j != i {
            assert(lane_map(s)[lane_key(s[j])] == lane_view(s[j]));
        }
    }
    assert(lane_map(u) =~= target);
}

/// Adding one more pipe to what was parted adds it to its side.
proof fn lemma_part_insert(
    m: Map<(Seq<char>, u8, Delivery), LaneView>,
    k: (Seq<char>, u8, Delivery),
    v: LaneView,
    node: Seq<char>,
)
    ensures
        (k.0 == node) ==> part(m.insert(k, v), node, true) == part(m, node, true).insert(k, v),
        (k.0 == node) ==> part(m.insert(k, v), node, false) == part(m, node, false),
        (k.0 != node) ==> part(m.insert(k, v), node, false) == part(m, node, false).insert(k, v),
        (k.0 != node) ==> part(m.insert(k, v), node, true) == part(m, node, true),
{
    assert((k.0 == node) ==> part(m.insert(k, v), node, true) =~= part(m, node, true).insert(k, v));
    assert((k.0 == node) ==> part(m.insert(k, v), node, false) =~= part(m, node, false));
    assert((k.0 != node) ==> part(m.insert(k, v), node, false) =~= part(m, node, false).insert(k, v));
    assert((k.0 != node) ==> part(m.insert(k, v), node, true) =~= part(m, node, true));
}

/// The pipes a node keeps to its peers.
pub struct Lanes {
    lanes: Vec<Lane>,
}

impl Lanes {
    /// The pipes, by peer name, protocol and delivery.
    pub closed spec fn view_map(&self) -> Map<(Seq<char>, u8, Delivery), LaneView> {
        lane_map(self.lanes@)
    }

    /// No two pipes share a key.
    pub closed spec fn wf(&self) -> bool {
        keys_unique(self.lanes@)
    }

    /// No pipes yet.
    pub fn new() -> (r: Lanes)
        ensures
            r.wf(),
            r.view_map() == Map::<(Seq<char>, u8, Delivery), LaneView>::empty(),
    {
        Lanes { lanes: Vec::new() }
    }

    /// The position of the pipe with the given key, if there is one.
    fn find(&self, node: &NodeName, protocol: Protocol, delivery: Delivery) -> (r: Option<usize>)
        requires
            self.wf(),
        ensures
            match r {
                Some(i) => i < self.lanes@.len() && lane_key(self.lanes@[i as int]) == (
                    node@,
                    protocol.0,
                    delivery,
                ),
                None => !self.view_map().contains_key((node@, protocol.0, delivery)),
            },
    {
        proof {
            lemma_lane_map_lookup(self.lanes@);
        }
        let mut i: usize = 0;
        while i < self.lanes.len()
            invariant
                i <= self.lanes@.len(),
                forall|j: int| 0 <= j < i ==> lane_key(#[trigger] self.lanes@[j]) != (node@, protocol.0, delivery),
            decreases self.lanes@.len() - i,
        {
            let lane = &self.lanes[i];
            if lane.node.same(node) && lane.protocol.0 == protocol.0 && lane.delivery == delivery {
                return Some(i);
            }
            i = i + 1;
        }
        None
    }

    /// The pipe to `to` for `protocol` and `delivery` to hand out again, if
    /// one was started to where the peer now is. A pipe that leads to where
    /// the peer used to be is stale. Whether the pipe has ended of itself,
    /// after being idle, is for the caller to check.
    pub fn current(&self, to: &Member, protocol: Protocol, delivery: Delivery) -> (r: Option<u64>)
        requires
            self.wf(),
        ensures
            r == reusable(self.view_map(), (to.name@, protocol.0, delivery), to.addr@),
    {
        proof {
            lemma_lane_map_lookup(self.lanes@);
        }
        match self.find(&to.name, protocol, delivery) {
            Some(i) => {
                let lane = &self.lanes[i];
                assert(self.view_map()[lane_key(self.lanes@[i as int])] == lane_view(self.lanes@[i as int]));
                if lane.addr.same(&to.addr) {
                    Some(lane.id)
                } else {
                    None
                }
            },
            None => None,
        }
    }

    /// Makes the pipe numbered `id` the pipe to `to` for `protocol` and
    /// `delivery`, leading to where `to` now is. Returns the number of the
    /// pipe it replaces, if there was one: that one is no longer handed out.
    pub fn start(&mut self, to: &Member, protocol: Protocol, delivery: Delivery, id: u64) -> (r: Option<u64>)
        requires
            old(self).wf(),
        ensures
            final(self).wf(),
            final(self).view_map() == old(self).view_map().insert(
                (to.name@, protocol.0, delivery),
                LaneView { addr: to.addr@, id },
            ),
            match r {
                Some(replaced) => old(self).view_map().contains_key((to.name@, protocol.0, delivery))
                    && old(self).view_map()[(to.name@, protocol.0, delivery)].id == replaced,
                None => !old(self).view_map().contains_key((to.name@, protocol.0, delivery)),
            },
    {
        proof {
            lemma_lane_map_lookup(self.lanes@);
        }
        let lane = Lane {
            node: to.name.clone(),
            protocol,
            delivery,
            addr: to.addr.clone(),
            id,
        };
        match self.find(&to.name, protocol, delivery) {
            Some(i) => {
                let replaced = self.lanes[i].id;
                assert(self.view_map()[lane_key(self.lanes@[i as int])] == lane_view(self.lanes@[i as int]));
                proof {
                    lemma_lane_map_update(self.lanes@, i as int, lane);
                }
                self.lanes.set(i, lane);
                Some(replaced)
            },
            None => {
                proof {
                    lemma_lane_map_push(self.lanes@, lane);
                }
                self.lanes.push(lane);
                None
            },
        }
    }

    /// Ends the pipes to `node`, and returns them: the peer has been
    /// forgotten. The pipes to other peers stay as they are.
    pub fn forget(&mut self, node: &NodeName) -> (r: Vec<Lane>)
        requires
            old(self).wf(),
        ensures
            final(self).wf(),
            final(self).view_map() == part(old(self).view_map(), node@, false),
            lane_map(r@) == part(old(self).view_map(), node@, true),
    {
        let ghost s = self.lanes@;
        let mut kept: Vec<Lane> = Vec::new();
        let mut gone: Vec<Lane> = Vec::new();
        let mut all = Vec::new();
        std::mem::swap(&mut all, &mut self.lanes);
        assert(all@ == s);
        let mut i: usize = 0;
        proof {
            assert(s.take(0) =~= Seq::<Lane>::empty());
            assert(lane_map(Seq::<Lane>::empty()) == Map::<(Seq<char>, u8, Delivery), LaneView>::empty());
            assert(part(Map::<(Seq<char>, u8, Delivery), LaneView>::empty(), node@, true) =~= Map::<(Seq<char>, u8, Delivery), LaneView>::empty());
            assert(part(Map::<(Seq<char>, u8, Delivery), LaneView>::empty(), node@, false) =~= Map::<(Seq<char>, u8, Delivery), LaneView>::empty());
        }
        while i < all.len()
            invariant
                all@ == s,
                keys_unique(s),
                i <= s.len(),
                keys_unique(kept@),
                lane_map(kept@) == part(lane_map(s.take(i as int)), node@, false),
                lane_map(gone@) == part(lane_map(s.take(i as int)), node@, true),
                forall|j: int|
                    0 <= j < kept@.len() ==> exists|t: int| 0 <= t < i && lane_key(#[trigger] kept@[j]) == lane_key(s[t]),
            decreases s.len() - i,
        {
            let lane = &all[i];
            let ghost x = s[i as int];
            proof {
                assert(s.take(i + 1).drop_last() =~= s.take(i as int));
                assert(s.take(i + 1).last() == x);
                lemma_part_insert(lane_map(s.take(i as int)), lane_key(x), lane_view(x), node@);
            }
            let copy = Lane {
                node: lane.node.clone(),
                protocol: lane.protocol,
                delivery: lane.delivery,
                addr: lane.addr.clone(),
                id: lane.id,
            };
            assert(lane_key(copy) == lane_key(x) && lane_view(copy) == lane_view(x));
            if lane.node.same(node) {
                let ghost before = gone@;
                gone.push(copy);
                assert(gone@.drop_last() =~= before);
            } else {
                let ghost before = kept@;
                proof {
                    lemma_lane_map_lookup(before);
                    if lane_map(before).contains_key(lane_key(copy)) {
                        let j = choose|j: int| 0 <= j < before.len() && lane_key(before[j]) == lane_key(copy);
                        let t = choose|t: int| 0 <= t < i && lane_key(before[j]) == lane_key(s[t]);
                        assert(lane_key(s[t]) != lane_key(s[i as int]));
                    }
                    lemma_lane_map_push(before, copy);
                }
                kept.push(copy);
                assert(kept@ =~= before.push(copy));
                assert forall|j: int| 0 <= j < kept@.len() implies exists|t: int|
                    0 <= t < i + 1 && lane_key(#[trigger] kept@[j]) == lane_key(s[t]) by {
                    if j < before.len() {
                        assert(kept@[j] == before[j]);
                        let t = choose|t: int| 0 <= t < i && lane_key(before[j]) == lane_key(s[t]);
                        assert(0 <= t < i + 1);
                    } else {
                        assert(lane_key(kept@[j]) == lane_key(s[i as int]));
                    }
                }
            }
            i = i + 1;
        }
        assert(s.take(s.len() as int) =~= s);
        self.lanes = kept;
        gone
    }
}

/// Whether an ordered pipe's stream, opened on the connection numbered
/// `stream_on` if it has one, can take the next message going over the
/// connection numbered `conn`: a stream on an earlier connection is gone
/// with it, and a new one is opened.
pub fn stream_still_usable(stream_on: Option<u64>, conn: u64) -> (r: bool)
    ensures
        r == (stream_on == Some(conn)),
{
    match stream_on {
        Some(on) => on == conn,
        None => false,
    }
}

/// A pipe started for a peer is handed out again for as long as the peer
/// stays where it was; once the peer has moved none is, and forgetting a
/// peer ends its pipes and leaves those to every other peer as they were.
pub proof fn lemma_pipes_are_reused_until_the_peer_moves_or_is_forgotten(
    pipes: Map<(Seq<char>, u8, Delivery), LaneView>,
    key: (Seq<char>, u8, Delivery),
    addr: Seq<char>,
    moved_to: Seq<char>,
    id: u64,
    other: (Seq<char>, u8, Delivery),
)
    requires
        moved_to != addr,
        other.0 != key.0,
    ensures
        reusable(pipes.insert(key, LaneView { addr, id }), key, addr) == Some(id),
        reusable(pipes.insert(key, LaneView { addr, id }), key, moved_to) is None,
        reusable(part(pipes, key.0, false), key, addr) is None,
        reusable(part(pipes, key.0, false), other, addr) == reusable(pipes, other, addr),
{
}

} // verus!
