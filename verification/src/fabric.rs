//! The rules of a simulated network, on which whole clusters run in one
//! process.
//!
//! Nodes listen at addresses; a node that dials an address reaches whoever
//! listens there, if that is the node it means and no partition lies between
//! them. Partitions cut the links between two groups of nodes in both
//! directions, and every connection across them. Bytes on a stream come out
//! in the order they went in, after the latency of the link; datagrams may be
//! lost, or overtake each other.
//!
//! Instants and durations are counted in nanoseconds.
use crate::backend::DatagramError;
use crate::names::{NodeAddr, NodeName};
use crate::timings::MILLISECOND;
use vstd::prelude::*;

verus! {

/// The largest datagram, as the packet size allows on a real network.
pub const MAX_DATAGRAM: usize = 1200;

/// A node listening at an address.
#[derive(Debug)]
pub struct Listener {
    /// Where it listens.
    pub addr: NodeAddr,
    /// The node.
    pub node: NodeName,
    /// Tells a registration apart from the one that replaced it.
    pub instance: u64,
}

/// Who listens at an address, as a value.
pub struct ListenerView {
    pub node: Seq<char>,
    pub instance: u64,
}

/// A link cut from one node to another.
#[derive(Debug)]
struct Cut {
    from: NodeName,
    to: NodeName,
}

/// Who listens where, in `s`.
pub open spec fn listener_map(s: Seq<Listener>) -> Map<Seq<char>, ListenerView>
    decreases s.len(),
{
    if s.len() == 0 {
        Map::empty()
    } else {
        listener_map(s.drop_last()).insert(
            s.last().addr@,
            ListenerView { node: s.last().node@, instance: s.last().instance },
        )
    }
}

/// No two listeners in `s` share an address.
pub open spec fn addrs_unique(s: Seq<Listener>) -> bool {
    forall|i: int, j: int|
        0 <= i < s.len() && 0 <= j < s.len() && i != j ==> #[trigger] s[i].addr@ != #[trigger] s[j].addr@
}

spec fn cut_set(s: Seq<Cut>) -> Set<(Seq<char>, Seq<char>)> {
    Set::new(|p: (Seq<char>, Seq<char>)| exists|i: int| 0 <= i < s.len() && (s[i].from@, s[i].to@) == p)
}

/// The names in `names`.
pub open spec fn named(names: Seq<&str>) -> Set<Seq<char>> {
    Set::new(|n: Seq<char>| exists|i: int| 0 <= i < names.len() && names[i]@ == n)
}

/// The links between every node in `a` and every node in `b`, both ways.
pub open spec fn spanning(a: Set<Seq<char>>, b: Set<Seq<char>>) -> Set<(Seq<char>, Seq<char>)> {
    Set::new(
        |p: (Seq<char>, Seq<char>)| (a.contains(p.0) && b.contains(p.1)) || (b.contains(p.0) && a.contains(p.1)),
    )
}

/// Whether the set of cut links `cuts` cuts every link both ways, or none.
pub open spec fn both_ways(cuts: Set<(Seq<char>, Seq<char>)>) -> bool {
    forall|x: Seq<char>, y: Seq<char>| #[trigger] cuts.contains((x, y)) ==> cuts.contains((y, x))
}

/// The listener that a node `from`, dialing `addr` for the node `node`,
/// reaches: the one at `addr`, if it is that node and the link from `from` to
/// it is not cut.
pub open spec fn answering(
    listeners: Map<Seq<char>, ListenerView>,
    cuts: Set<(Seq<char>, Seq<char>)>,
    from: Seq<char>,
    addr: Seq<char>,
    node: Seq<char>,
) -> Option<u64> {
    if listeners.contains_key(addr) && listeners[addr].node == node && !cuts.contains((from, node)) {
        Some(listeners[addr].instance)
    } else {
        None
    }
}

/// The listeners once the registration `instance` at `addr` goes away: a
/// registration that was already replaced leaves its replacement alone.
pub open spec fn unbinding(listeners: Map<Seq<char>, ListenerView>, addr: Seq<char>, instance: u64) -> Map<
    Seq<char>,
    ListenerView,
> {
    if listeners.contains_key(addr) && listeners[addr].instance == instance {
        listeners.remove(addr)
    } else {
        listeners
    }
}

proof fn lemma_listener_map_lookup(s: Seq<Listener>)
    requires
        addrs_unique(s),
    ensures
        forall|k: Seq<char>|
            #[trigger] listener_map(s).contains_key(k) <==> exists|i: int| 0 <= i < s.len() && s[i].addr@ == k,
        forall|i: int|
            0 <= i < s.len() ==> #[trigger] listener_map(s)[s[i].addr@] == (ListenerView {
                node: s[i].node@,
                instance: s[i].instance,
            }),
    decreases s.len(),
{
    if s.len() > 0 {
        let t = s.drop_last();
        assert forall|i: int, j: int|
            0 <= i < t.len() && 0 <= j < t.len() && i != j implies #[trigger] t[i].addr@ != #[trigger] t[j].addr@ by {
            assert(t[i] == s[i] && t[j] == s[j]);
        }
        lemma_listener_map_lookup(t);
        assert(listener_map(s) == listener_map(t).insert(
            s.last().addr@,
            ListenerView { node: s.last().node@, instance: s.last().instance },
        ));
        assert forall|k: Seq<char>| #[trigger]
            listener_map(s).contains_key(k) <==> exists|i: int| 0 <= i < s.len() && s[i].addr@ == k by {
            if listener_map(s).contains_key(k) && k != s.last().addr@ {
                assert(listener_map(t).contains_key(k));
                let i = choose|i: int| 0 <= i < t.len() && t[i].addr@ == k;
                assert(s[i] == t[i]);
            }
            if exists|i: int| 0 <= i < s.len() && s[i].addr@ == k {
                let i = choose|i: int| 0 <= i < s.len() && s[i].addr@ == k;
                if i < s.len() - 1 {
                    assert(t[i] == s[i]);
                }
            }
        }
        assert forall|i: int| 0 <= i < s.len() implies #[trigger] listener_map(s)[s[i].addr@] == (ListenerView {
            node: s[i].node@,
            instance: s[i].instance,
        }) by {
            if i < s.len() - 1 {
                assert(t[i] == s[i]);
                assert(s[i].addr@ != s[s.len() - 1].addr@);
            }
        }
    }
}

proof fn lemma_listener_map_push(s: Seq<Listener>, l: Listener)
    requires
        addrs_unique(s),
        !listener_map(s).contains_key(l.addr@),
    ensures
        addrs_unique(s.push(l)),
        listener_map(s.push(l)) == listener_map(s).insert(
            l.addr@,
            ListenerView { node: l.node@, instance: l.instance },
        ),
{
    lemma_listener_map_lookup(s);
    assert(s.push(l).drop_last() =~= s);
    let u = s.push(l);
    assert forall|i: int, j: int|
        0 <= i < u.len() && 0 <= j < u.len() && i != j implies #[trigger] u[i].addr@ != #[trigger] u[j].addr@ by {
        if i < s.len() {
            assert(u[i] == s[i]);
        }
        if j < s.len() {
            assert(u[j] == s[j]);
        }
    }
}

proof fn lemma_listener_map_update(s: Seq<Listener>, i: int, l: Listener)
    requires
        addrs_unique(s),
        0 <= i < s.len(),
        l.addr@ == s[i].addr@,
    ensures
        addrs_unique(s.update(i, l)),
        listener_map(s.update(i, l)) == listener_map(s).insert(
            l.addr@,
            ListenerView { node: l.node@, instance: l.instance },
        ),
{
    let u = s.update(i, l);
    let target = listener_map(s).insert(l.addr@, ListenerView { node: l.node@, instance: l.instance });
    assert forall|a: int, b: int|
        0 <= a < u.len() && 0 <= b < u.len() && a != b implies #[trigger] u[a].addr@ != #[trigger] u[b].addr@ by {
        assert(u[a].addr@ == s[a].addr@);
        assert(u[b].addr@ == s[b].addr@);
    }
    lemma_listener_map_lookup(s);
    lemma_listener_map_lookup(u);
    assert forall|k: Seq<char>| #[trigger] listener_map(u).contains_key(k) <==> target.contains_key(k) by {
        if listener_map(u).contains_key(k) {
            let j = choose|j: int| 0 <= j < u.len() && u[j].addr@ == k;
            assert(s[j].addr@ == k);
        }
        if listener_map(s).contains_key(k) {
            let j = choose|j: int| 0 <= j < s.len() && s[j].addr@ == k;
            assert(u[j].addr@ == k);
        }
        if k == l.addr@ {
            assert(u[i].addr@ == k);
        }
    }
    assert forall|k: Seq<char>| #[trigger] listener_map(u).contains_key(k) implies listener_map(u)[k]
        == target[k] by {
        let j = choose|j: int| 0 <= j < u.len() && u[j].addr@ == k;
        assert(listener_map(u)[u[j].addr@] == (ListenerView { node: u[j].node@, instance: u[j].instance }));
        if j != i {
            assert(listener_map(s)[s[j].addr@] == (ListenerView { node: s[j].node@, instance: s[j].instance }));
        }
    }
    assert(listener_map(u) =~= target);
}

proof fn lemma_listener_map_remove(s: Seq<Listener>, i: int)
    requires
        addrs_unique(s),
        0 <= i < s.len(),
    ensures
        addrs_unique(s.remove(i)),
        listener_map(s.remove(i)) == listener_map(s).remove(s[i].addr@),
{
    let u = s.remove(i);
    let target = listener_map(s).remove(s[i].addr@);
    assert forall|a: int, b: int|
        0 <= a < u.len() && 0 <= b < u.len() && a != b implies #[trigger] u[a].addr@ != #[trigger] u[b].addr@ by {
        let a2 = if a < i { a } else { a + 1 };
        let b2 = if b < i { b } else { b + 1 };
        assert(u[a] == s[a2]);
        assert(u[b] == s[b2]);
    }
    lemma_listener_map_lookup(s);
    lemma_listener_map_lookup(u);
    assert forall|k: Seq<char>| #[trigger] listener_map(u).contains_key(k) <==> target.contains_key(k) by {
        if listener_map(u).contains_key(k) {
            let j = choose|j: int| 0 <= j < u.len() && u[j].addr@ == k;
            let j2 = if j < i { j } else { j + 1 };
            assert(u[j] == s[j2]);
        }
        if listener_map(s).contains_key(k) && k != s[i].addr@ {
            let j = choose|j: int| 0 <= j < s.len() && s[j].addr@ == k;
            let j2 = if j < i { j } else { j - 1 };
            assert(u[j2] == s[j]);
        }
    }
    assert forall|k: Seq<char>| #[trigger] listener_map(u).contains_key(k) implies listener_map(u)[k]
        == target[k] by {
        let j = choose|j: int| 0 <= j < u.len() && u[j].addr@ == k;
        let j2 = if j < i { j } else { j + 1 };
        assert(u[j] == s[j2]);
        assert(listener_map(u)[u[j].addr@] == (ListenerView { node: u[j].node@, instance: u[j].instance }));
        assert(listener_map(s)[s[j2].addr@] == (ListenerView { node: s[j2].node@, instance: s[j2].instance }));
    }
    assert(listener_map(u) =~= target);
}

/// The names among the first `i + 1` of `names` are those among the first
/// `i`, and one more.
proof fn lemma_named_take(names: Seq<&str>, i: int)
    requires
        0 <= i < names.len(),
    ensures
        named(names.take(i + 1)) == named(names.take(i)).insert(names[i]@),
{
    let long = names.take(i + 1);
    let short = names.take(i);
    assert forall|n: Seq<char>| named(long).contains(n) <==> named(short).insert(names[i]@).contains(n) by {
        if named(long).contains(n) {
            let k = choose|k: int| 0 <= k < long.len() && #[trigger] long[k]@ == n;
            if k < i {
                assert(short[k] == long[k]);
            }
        }
        if named(short).contains(n) {
            let k = choose|k: int| 0 <= k < short.len() && #[trigger] short[k]@ == n;
            assert(long[k] == short[k]);
        }
        if n == names[i]@ {
            assert(long[i] == names[i]);
        }
    }
    assert(named(long) =~= named(short).insert(names[i]@));
}

/// What becomes of a datagram offered to a connection.
#[derive(Debug, Clone, Copy, PartialEq, Eq, Structural)]
pub enum Fate {
    /// It arrives, after the latency of the link.
    Delivered,
    /// The link is cut: it is lost, as datagrams may be.
    Lost,
}

/// What becomes of a datagram of `len` bytes offered to a connection that
/// is `closed` or not, over a link that is `cut` or not.
pub fn datagram_fate(closed: bool, len: usize, cut: bool) -> (r: Result<Fate, DatagramError>)
    ensures
        r == (if closed {
            Err(DatagramError::Closed)
        } else if len > MAX_DATAGRAM {
            Err(DatagramError::TooLarge)
        } else if cut {
            Ok(Fate::Lost)
        } else {
            Ok(Fate::Delivered)
        }),
{
    if closed {
        Err(DatagramError::Closed)
    } else if len > MAX_DATAGRAM {
        Err(DatagramError::TooLarge)
    } else if cut {
        Ok(Fate::Lost)
    } else {
        Ok(Fate::Delivered)
    }
}

/// When the bytes read from a stream at the instant `arrival` (their
/// reading time plus the delay of the link) may come out, given that the
/// bytes before them come out at `last`: never before those, whatever the
/// delay, so that a stream never reorders.
pub fn release_at(last: u128, arrival: u128) -> (r: u128)
    ensures
        r == (if last < arrival { arrival } else { last }),
{
    if last < arrival {
        arrival
    } else {
        last
    }
}

/// The bytes of a stream come out in the order they went in, and none
/// before its delay has passed.
pub proof fn lemma_streams_keep_their_order(last: u128, arrival: u128)
    ensures
        last <= (if last < arrival { arrival } else { last }),
        arrival <= (if last < arrival { arrival } else { last }),
{
}

/// A simulated network: who listens where, which links are cut, and how
/// long messages take.
pub struct Fabric {
    listeners: Vec<Listener>,
    cuts: Vec<Cut>,
    latency: u128,
    jitter: u128,
    next_instance: u64,
}

impl Fabric {
    /// Who listens where.
    pub closed spec fn listeners(&self) -> Map<Seq<char>, ListenerView> {
        listener_map(self.listeners@)
    }

    /// The links that are cut, from one node to another.
    pub closed spec fn cuts(&self) -> Set<(Seq<char>, Seq<char>)> {
        cut_set(self.cuts@)
    }

    /// The latency and the most jitter of a link.
    pub closed spec fn delays(&self) -> (u128, u128) {
        (self.latency, self.jitter)
    }

    /// The instance the next registration gets.
    pub closed spec fn next_instance_view(&self) -> u64 {
        self.next_instance
    }

    /// No two listeners share an address, and every link is cut both ways or
    /// not at all.
    pub closed spec fn wf(&self) -> bool {
        &&& addrs_unique(self.listeners@)
        &&& both_ways(cut_set(self.cuts@))
    }

    /// Links are cut both ways or not at all.
    pub proof fn lemma_cuts_go_both_ways(&self, x: Seq<char>, y: Seq<char>)
        requires
            self.wf(),
        ensures
            self.cuts().contains((x, y)) <==> self.cuts().contains((y, x)),
    {
        if self.cuts().contains((x, y)) {
            assert(cut_set(self.cuts@).contains((x, y)));
        }
        if self.cuts().contains((y, x)) {
            assert(cut_set(self.cuts@).contains((y, x)));
        }
    }

    /// A network with nobody on it, where messages take a millisecond.
    pub fn new() -> (r: Fabric)
        ensures
            r.wf(),
            r.listeners() == Map::<Seq<char>, ListenerView>::empty(),
            r.cuts() == Set::<(Seq<char>, Seq<char>)>::empty(),
            r.delays() == (MILLISECOND, 0u128),
            r.next_instance_view() == 0,
    {
        let r = Fabric { listeners: Vec::new(), cuts: Vec::new(), latency: MILLISECOND, jitter: 0, next_instance: 0 };
        assert(r.listeners() =~= Map::<Seq<char>, ListenerView>::empty());
        assert(cut_set(r.cuts@) =~= Set::<(Seq<char>, Seq<char>)>::empty());
        r
    }

    /// Every message takes `latency` plus up to `jitter` to arrive.
    pub fn set_latency(&mut self, latency: u128, jitter: u128)
        ensures
            final(self).wf() == old(self).wf(),
            final(self).delays() == (latency, jitter),
            final(self).listeners() == old(self).listeners(),
            final(self).cuts() == old(self).cuts(),
            final(self).next_instance_view() == old(self).next_instance_view(),
    {
        self.latency = latency;
        self.jitter = jitter;
    }

    /// How long a message takes at least.
    pub fn latency(&self) -> (r: u128)
        ensures
            r == self.delays().0,
    {
        self.latency
    }

    /// How much longer than the latency a message may take.
    pub fn jitter(&self) -> (r: u128)
        ensures
            r == self.delays().1,
    {
        self.jitter
    }

    /// The instance the next registration gets.
    pub fn next_instance(&self) -> (r: u64)
        ensures
            r == self.next_instance_view(),
    {
        self.next_instance
    }

    /// Whether the link from `from` to `to` is cut.
    pub fn partitioned(&self, from: &NodeName, to: &NodeName) -> (r: bool)
        ensures
            r == self.cuts().contains((from@, to@)),
    {
        let mut i: usize = 0;
        while i < self.cuts.len()
            invariant
                i <= self.cuts@.len(),
                forall|j: int| 0 <= j < i ==> (#[trigger] self.cuts@[j].from@, self.cuts@[j].to@) != (from@, to@),
            decreases self.cuts@.len() - i,
        {
            if self.cuts[i].from.same(from) && self.cuts[i].to.same(to) {
                assert(cut_set(self.cuts@).contains((from@, to@)));
                return true;
            }
            i = i + 1;
        }
        false
    }

    /// Cuts the link from `from` to `to`, if it isn't yet.
    fn cut(&mut self, from: &NodeName, to: &NodeName)
        requires
            addrs_unique(old(self).listeners@),
        ensures
            addrs_unique(final(self).listeners@),
            final(self).cuts() == old(self).cuts().insert((from@, to@)),
            final(self).listeners() == old(self).listeners(),
            final(self).delays() == old(self).delays(),
            final(self).next_instance_view() == old(self).next_instance_view(),
    {
        if !self.partitioned(from, to) {
            let ghost before = self.cuts@;
            self.cuts.push(Cut { from: from.clone(), to: to.clone() });
            assert forall|p: (Seq<char>, Seq<char>)| #[trigger]
                cut_set(self.cuts@).contains(p) <==> cut_set(before).insert((from@, to@)).contains(p) by {
                if cut_set(before).contains(p) {
                    let i = choose|i: int| 0 <= i < before.len() && (before[i].from@, before[i].to@) == p;
                    assert(self.cuts@[i] == before[i]);
                }
                if cut_set(self.cuts@).contains(p) {
                    let i = choose|i: int| 0 <= i < self.cuts@.len() && (self.cuts@[i].from@, self.cuts@[i].to@) == p;
                    if i < before.len() {
                        assert(self.cuts@[i] == before[i]);
                    }
                }
                if p == (from@, to@) {
                    assert(self.cuts@[before.len() as int].from@ == from@);
                }
            }
            assert(cut_set(self.cuts@) =~= cut_set(before).insert((from@, to@)));
        } else {
            assert(self.cuts().insert((from@, to@)) =~= self.cuts());
        }
    }

    /// Cuts the links between every node named in `a` and every node named
    /// in `b`, in both directions. The connections across them are to be
    /// cut too: those between nodes for which [`Fabric::partitioned`] now
    /// holds.
    pub fn partition(&mut self, a: &[&str], b: &[&str])
        requires
            old(self).wf(),
        ensures
            final(self).wf(),
            final(self).cuts() == old(self).cuts() + spanning(named(a@), named(b@)),
            final(self).listeners() == old(self).listeners(),
            final(self).delays() == old(self).delays(),
            final(self).next_instance_view() == old(self).next_instance_view(),
    {
        let ghost start = self.cuts();
        let mut i: usize = 0;
        assert(spanning(named(a@.take(0)), named(b@)) =~= Set::<(Seq<char>, Seq<char>)>::empty()) by {
            assert(named(a@.take(0)) =~= Set::<Seq<char>>::empty());
        }
        assert(start + Set::<(Seq<char>, Seq<char>)>::empty() =~= start);
        while i < a.len()
            invariant
                i <= a@.len(),
                addrs_unique(self.listeners@),
                self.cuts() == start + spanning(named(a@.take(i as int)), named(b@)),
                self.listeners() == old(self).listeners(),
                self.delays() == old(self).delays(),
                self.next_instance_view() == old(self).next_instance_view(),
            decreases a@.len() - i,
        {
            let x = NodeName::new(a[i]);
            let mut j: usize = 0;
            let ghost row_start = self.cuts();
            assert(named(b@.take(0)) =~= Set::<Seq<char>>::empty());
            assert(spanning(set![x@], named(b@.take(0))) =~= Set::<(Seq<char>, Seq<char>)>::empty());
            assert(row_start + Set::<(Seq<char>, Seq<char>)>::empty() =~= row_start);
            while j < b.len()
                invariant
                    i < a@.len(),
                    j <= b@.len(),
                    x@ == a@[i as int]@,
                    addrs_unique(self.listeners@),
                    self.cuts() == row_start + spanning(set![x@], named(b@.take(j as int))),
                    self.listeners() == old(self).listeners(),
                    self.delays() == old(self).delays(),
                    self.next_instance_view() == old(self).next_instance_view(),
                decreases b@.len() - j,
            {
                let y = NodeName::new(b[j]);
                let ghost before = self.cuts();
                self.cut(&x, &y);
                self.cut(&y, &x);
                proof {
                    lemma_named_take(b@, j as int);
                }
                assert(self.cuts() =~= row_start + spanning(set![x@], named(b@.take(j + 1))));
                j = j + 1;
            }
            assert(b@.take(b@.len() as int) =~= b@);
            proof {
                lemma_named_take(a@, i as int);
            }
            assert(self.cuts() =~= start + spanning(named(a@.take(i + 1)), named(b@)));
            i = i + 1;
        }
        assert(a@.take(a@.len() as int) =~= a@);
        assert(both_ways(self.cuts())) by {
            assert forall|x: Seq<char>, y: Seq<char>| #[trigger] self.cuts().contains((x, y)) implies self.cuts().contains(
                (y, x),
            ) by {
                if start.contains((x, y)) {
                    assert(cut_set(old(self).cuts@).contains((x, y)));
                }
            }
        }
    }

    /// Restores every link.
    pub fn heal(&mut self)
        requires
            old(self).wf(),
        ensures
            final(self).wf(),
            final(self).cuts() == Set::<(Seq<char>, Seq<char>)>::empty(),
            final(self).listeners() == old(self).listeners(),
            final(self).delays() == old(self).delays(),
            final(self).next_instance_view() == old(self).next_instance_view(),
    {
        self.cuts = Vec::new();
        assert(cut_set(self.cuts@) =~= Set::<(Seq<char>, Seq<char>)>::empty());
    }

    /// The position of the listener at `addr`, if there is one.
    fn find(&self, addr: &NodeAddr) -> (r: Option<usize>)
        requires
            addrs_unique(self.listeners@),
        ensures
            match r {
                Some(i) => i < self.listeners@.len() && self.listeners@[i as int].addr@ == addr@,
                None => !self.listeners().contains_key(addr@),
            },
    {
        proof {
            lemma_listener_map_lookup(self.listeners@);
        }
        let mut i: usize = 0;
        while i < self.listeners.len()
            invariant
                i <= self.listeners@.len(),
                forall|j: int| 0 <= j < i ==> #[trigger] self.listeners@[j].addr@ != addr@,
            decreases self.listeners@.len() - i,
        {
            if self.listeners[i].addr.same(addr) {
                return Some(i);
            }
            i = i + 1;
        }
        None
    }

    /// Starts `node` listening at `addr`, replacing whatever listened there.
    /// Returns the instance of the registration, and that of the one it
    /// replaced, if any.
    pub fn bind(&mut self, node: &str, addr: &NodeAddr) -> (r: (u64, Option<u64>))
        requires
            old(self).wf(),
            old(self).next_instance_view() < u64::MAX,
        ensures
            final(self).wf(),
            r.0 == old(self).next_instance_view(),
            final(self).next_instance_view() == r.0 + 1,
            final(self).listeners() == old(self).listeners().insert(
                addr@,
                ListenerView { node: node@, instance: r.0 },
            ),
            r.1 == (if old(self).listeners().contains_key(addr@) {
                Some(old(self).listeners()[addr@].instance)
            } else {
                None
            }),
            final(self).cuts() == old(self).cuts(),
            final(self).delays() == old(self).delays(),
    {
        let instance = self.next_instance;
        self.next_instance = instance + 1;
        let listener = Listener { addr: addr.clone(), node: NodeName::new(node), instance };
        proof {
            lemma_listener_map_lookup(self.listeners@);
        }
        match self.find(addr) {
            Some(i) => {
                let replaced = self.listeners[i].instance;
                proof {
                    lemma_listener_map_update(self.listeners@, i as int, listener);
                }
                self.listeners.set(i, listener);
                (instance, Some(replaced))
            },
            None => {
                proof {
                    lemma_listener_map_push(self.listeners@, listener);
                }
                self.listeners.push(listener);
                (instance, None)
            },
        }
    }

    /// Takes the registration `instance` at `addr` off the network, as when
    /// its node crashes or stops; one that was already replaced leaves its
    /// replacement listening.
    pub fn unbind(&mut self, addr: &NodeAddr, instance: u64)
        requires
            old(self).wf(),
        ensures
            final(self).wf(),
            final(self).listeners() == unbinding(old(self).listeners(), addr@, instance),
            forall|other: Seq<char>|
                other != addr@ ==> (#[trigger] final(self).listeners().contains_key(other)
                    == old(self).listeners().contains_key(other) && (old(self).listeners().contains_key(other)
                    ==> final(self).listeners()[other] == old(self).listeners()[other])),
            final(self).listeners().contains_key(addr@) == (old(self).listeners().contains_key(addr@)
                && old(self).listeners()[addr@].instance != instance),
            final(self).listeners().contains_key(addr@) ==> final(self).listeners()[addr@] == old(
                self,
            ).listeners()[addr@],
            final(self).cuts() == old(self).cuts(),
            final(self).delays() == old(self).delays(),
            final(self).next_instance_view() == old(self).next_instance_view(),
    {
        proof {
            lemma_listener_map_lookup(self.listeners@);
        }
        match self.find(addr) {
            Some(i) => {
                if self.listeners[i].instance == instance {
                    proof {
                        lemma_listener_map_remove(self.listeners@, i as int);
                    }
                    self.listeners.remove(i);
                }
            },
            None => {},
        }
    }

    /// Which registration a node `from` reaches when it dials `addr` for the
    /// node `node`: the one listening there, if that is the node it means and
    /// the link to it is not cut. `None` is a refusal.
    pub fn answering(&self, from: &NodeName, addr: &NodeAddr, node: &NodeName) -> (r: Option<u64>)
        requires
            self.wf(),
        ensures
            r == answering(self.listeners(), self.cuts(), from@, addr@, node@),
    {
        proof {
            lemma_listener_map_lookup(self.listeners@);
        }
        match self.find(addr) {
            Some(i) => {
                let listener = &self.listeners[i];
                if listener.node.same(node) && !self.partitioned(from, node) {
                    Some(listener.instance)
                } else {
                    None
                }
            },
            None => None,
        }
    }
}

/// A node that was started at an address is reached there by every node
/// that means it, unless the link is cut; once it is taken off the network
/// it is reached no more, while a replaced registration going away leaves
/// its replacement reachable.
pub proof fn lemma_a_bound_node_answers(
    listeners: Map<Seq<char>, ListenerView>,
    cuts: Set<(Seq<char>, Seq<char>)>,
    from: Seq<char>,
    addr: Seq<char>,
    node: Seq<char>,
    instance: u64,
    stale: u64,
)
    requires
        stale != instance,
    ensures
        answering(listeners.insert(addr, ListenerView { node, instance }), cuts, from, addr, node) == (if cuts.contains(
            (from, node),
        ) {
            None
        } else {
            Some(instance)
        }),
        answering(unbinding(listeners.insert(addr, ListenerView { node, instance }), addr, instance), cuts, from, addr, node) is None,
        unbinding(listeners.insert(addr, ListenerView { node, instance }), addr, stale) == listeners.insert(
            addr,
            ListenerView { node, instance },
        ),
{
}

/// A partition cuts every link between its two groups, both ways, and
/// keeps what was cut before; healing restores every link.
pub proof fn lemma_partitions_cut_both_ways(
    cuts: Set<(Seq<char>, Seq<char>)>,
    a: Set<Seq<char>>,
    b: Set<Seq<char>>,
    x: Seq<char>,
    y: Seq<char>,
)
    requires
        both_ways(cuts),
        a.contains(x),
        b.contains(y),
    ensures
        both_ways(cuts + spanning(a, b)),
        (cuts + spanning(a, b)).contains((x, y)),
        (cuts + spanning(a, b)).contains((y, x)),
        cuts.subset_of(cuts + spanning(a, b)),
        both_ways(Set::<(Seq<char>, Seq<char>)>::empty()),
{
}

/// Taking a registration off the network touches its own address only:
/// every other node keeps listening where it was, and the address itself is
/// freed only if the registration there is the one going away.
pub proof fn lemma_unbinding_touches_only_its_own_address(
    listeners: Map<Seq<char>, ListenerView>,
    addr: Seq<char>,
    instance: u64,
    other: Seq<char>,
)
    requires
        other != addr,
    ensures
        unbinding(listeners, addr, instance).contains_key(other) == listeners.contains_key(other),
        listeners.contains_key(other) ==> unbinding(listeners, addr, instance)[other] == listeners[other],
        unbinding(listeners, addr, instance).contains_key(addr) == (listeners.contains_key(addr)
            && listeners[addr].instance != instance),
{
    if listeners.contains_key(addr) && listeners[addr].instance == instance {
        assert(unbinding(listeners, addr, instance) == listeners.remove(addr));
    }
}

} // verus!
