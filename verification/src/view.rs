//! What a node knows about the cluster: the other nodes considered up, and
//! which of them it can't currently connect to.
//!
//! Every change goes through the mutators here, each of which returns the
//! events it publishes. Replaying those events on what was known before gives
//! exactly what is known after: a subscriber that takes a snapshot and then
//! follows the events sees each change once, never twice and never not at all.
use crate::member::{event_member, ClusterEvent, ClusterEventView, Member, MemberView};
use crate::names::NodeName;
use vstd::prelude::*;

verus! {

/// No two members in `s` have the same name.
pub open spec fn names_unique(s: Seq<Member>) -> bool {
    forall|i: int, j: int|
        0 <= i < s.len() && 0 <= j < s.len() && i != j ==> #[trigger] s[i].name@ != #[trigger] s[j].name@
}

/// No name occurs twice in `s`.
pub open spec fn unique_names(s: Seq<NodeName>) -> bool {
    forall|i: int, j: int| 0 <= i < s.len() && 0 <= j < s.len() && i != j ==> #[trigger] s[i]@ != #[trigger] s[j]@
}

/// The members in `s`, by name.
pub open spec fn member_map(s: Seq<Member>) -> Map<Seq<char>, MemberView>
    decreases s.len(),
{
    if s.len() == 0 {
        Map::empty()
    } else {
        member_map(s.drop_last()).insert(s.last().name@, s.last()@)
    }
}

/// The names in `s`.
pub open spec fn name_set(s: Seq<NodeName>) -> Set<Seq<char>> {
    Set::new(|k: Seq<char>| exists|i: int| 0 <= i < s.len() && s[i]@ == k)
}

/// Who is in the cluster, as a value: the members by name, and the names of
/// those that can't be connected to.
pub struct Membership {
    pub members: Map<Seq<char>, MemberView>,
    pub unreachable: Set<Seq<char>>,
}

/// What `e` changes in `m`.
pub open spec fn apply_event(m: Membership, e: ClusterEventView) -> Membership {
    match e {
        ClusterEventView::Up(x) => Membership {
            members: m.members.insert(x.name, x),
            unreachable: m.unreachable.remove(x.name),
        },
        ClusterEventView::Left(x) => Membership {
            members: m.members.remove(x.name),
            unreachable: m.unreachable.remove(x.name),
        },
        ClusterEventView::Failed(x) => Membership {
            members: m.members.remove(x.name),
            unreachable: m.unreachable.remove(x.name),
        },
        ClusterEventView::Unreachable(x) => Membership {
            members: m.members,
            unreachable: m.unreachable.insert(x.name),
        },
        ClusterEventView::Reachable(x) => Membership {
            members: m.members,
            unreachable: m.unreachable.remove(x.name),
        },
    }
}

/// What `events` change in `m`, one after the other.
pub open spec fn replay(m: Membership, events: Seq<ClusterEventView>) -> Membership
    decreases events.len(),
{
    if events.len() == 0 {
        m
    } else {
        replay(apply_event(m, events[0]), events.skip(1))
    }
}

/// Replaying no events changes nothing; replaying one or two applies them.
pub proof fn lemma_replay_short(m: Membership, e1: ClusterEventView, e2: ClusterEventView)
    ensures
        replay(m, Seq::<ClusterEventView>::empty()) == m,
        replay(m, seq![e1]) == apply_event(m, e1),
        replay(m, seq![e1, e2]) == apply_event(apply_event(m, e1), e2),
{
    assert(seq![e1].skip(1) =~= Seq::<ClusterEventView>::empty());
    assert(replay(apply_event(m, e1), Seq::<ClusterEventView>::empty()) == apply_event(m, e1));
    assert(replay(m, seq![e1]) == replay(apply_event(m, e1), seq![e1].skip(1)));
    assert(seq![e1, e2].skip(1) =~= seq![e2]);
    assert(seq![e2].skip(1) =~= Seq::<ClusterEventView>::empty());
    assert(replay(apply_event(m, e1), seq![e2]) == replay(apply_event(apply_event(m, e1), e2), Seq::<ClusterEventView>::empty()));
}

/// Replaying two runs of events one after the other is replaying them
/// together: a subscriber that follows the events of many changes after its
/// snapshot arrives where the changes left the cluster.
pub proof fn lemma_replay_append(m: Membership, a: Seq<ClusterEventView>, b: Seq<ClusterEventView>)
    ensures
        replay(m, a + b) == replay(replay(m, a), b),
    decreases a.len(),
{
    if a.len() == 0 {
        assert(a + b =~= b);
    } else {
        assert((a + b)[0] == a[0]);
        assert((a + b).skip(1) =~= a.skip(1) + b);
        lemma_replay_append(apply_event(m, a[0]), a.skip(1), b);
    }
}

/// A goodbye counts only for the generation that says it: from another
/// generation of a known node, or from an unknown node, it changes nothing
/// and publishes nothing; from the known generation, the node leaves and
/// that incarnation is published as having left.
pub proof fn lemma_a_goodbye_counts_only_for_its_generation(m: Membership, node: Seq<char>, generation: u64)
    ensures
        !(m.members.contains_key(node) && m.members[node].generation == generation) ==> left_outcome(
            m,
            node,
            generation,
        ) == (m, Seq::<ClusterEventView>::empty()),
        m.members.contains_key(node) && m.members[node].generation == generation ==> {
            &&& !left_outcome(m, node, generation).0.members.contains_key(node)
            &&& left_outcome(m, node, generation).1 == seq![ClusterEventView::Left(m.members[node])]
            &&& forall|other: Seq<char>|
                other != node ==> (#[trigger] left_outcome(m, node, generation).0.members.contains_key(other)
                    == m.members.contains_key(other))
        },
{
}

/// Whether `node` is a member of `m` that can be connected to.
pub open spec fn reachable_in(m: Membership, node: Seq<char>) -> bool {
    m.members.contains_key(node) && !m.unreachable.contains(node)
}

/// Nobody, and nobody unreachable: what a node knows before any event.
pub open spec fn nobody() -> Membership {
    Membership { members: Map::empty(), unreachable: Set::empty() }
}

/// The last of `events` that is about the node named `node`, if any is.
pub open spec fn last_about(events: Seq<ClusterEventView>, node: Seq<char>) -> Option<ClusterEventView>
    decreases events.len(),
{
    if events.len() == 0 {
        None
    } else if event_member(events.last()).name == node {
        Some(events.last())
    } else {
        last_about(events.drop_last(), node)
    }
}

/// Replaying one more event applies it to what the others gave.
proof fn lemma_replay_push(m: Membership, events: Seq<ClusterEventView>, e: ClusterEventView)
    ensures
        replay(m, events.push(e)) == apply_event(replay(m, events), e),
{
    lemma_replay_append(m, events, seq![e]);
    lemma_replay_short(replay(m, events), e, e);
    assert(events + seq![e] =~= events.push(e));
}

/// A node is on the unreachable list exactly when the last event published
/// about it says it is unreachable; with no event about it, it stays as it
/// was.
pub proof fn lemma_unreachable_follows_the_last_event(
    m: Membership,
    events: Seq<ClusterEventView>,
    node: Seq<char>,
)
    ensures
        replay(m, events).unreachable.contains(node) == match last_about(events, node) {
            Some(e) => e is Unreachable,
            None => m.unreachable.contains(node),
        },
    decreases events.len(),
{
    if events.len() > 0 {
        let earlier = events.drop_last();
        let e = events.last();
        lemma_unreachable_follows_the_last_event(m, earlier, node);
        assert(earlier.push(e) =~= events);
        lemma_replay_push(m, earlier, e);
    } else {
        lemma_replay_short(m, ClusterEventView::Left(MemberView { name: node, addr: node, generation: 0 }), ClusterEventView::Left(MemberView { name: node, addr: node, generation: 0 }));
    }
}

/// Of a node that started knowing nobody and has since seen `events`, a node
/// is reachable exactly when it is a member and the last event published
/// about it is not that it is unreachable: a node reported unreachable stays
/// so until it is reported reachable or up again.
pub proof fn lemma_reachable_unless_last_reported_unreachable(events: Seq<ClusterEventView>, node: Seq<char>)
    ensures
        reachable_in(replay(nobody(), events), node) == (replay(nobody(), events).members.contains_key(node)
            && !(last_about(events, node) matches Some(ClusterEventView::Unreachable(_)))),
{
    lemma_unreachable_follows_the_last_event(nobody(), events, node);
}

/// A subscriber that takes a snapshot once the events `before` have been
/// published, and then follows the events `after` it, arrives at what is
/// known once all of them have been: each change is either in the snapshot
/// or among the events it follows, never both and never neither, and so is
/// which members are reachable.
pub proof fn lemma_snapshot_and_later_events_give_the_current_state(
    start: Membership,
    before: Seq<ClusterEventView>,
    after: Seq<ClusterEventView>,
    node: Seq<char>,
)
    ensures
        replay(replay(start, before), after) == replay(start, before + after),
        reachable_in(replay(replay(start, before), after), node) == reachable_in(
            replay(start, before + after),
            node,
        ),
{
    lemma_replay_append(start, before, after);
}

/// The views of a list of events.
pub open spec fn event_views(events: Seq<ClusterEvent>) -> Seq<ClusterEventView> {
    events.map_values(|e: ClusterEvent| e@)
}

/// What a goodbye from the node `node` in its incarnation `generation` does
/// to `m`, and the events it publishes: the node leaves if it was known in
/// that generation, and nothing happens otherwise.
pub open spec fn left_outcome(m: Membership, node: Seq<char>, generation: u64) -> (Membership, Seq<ClusterEventView>) {
    if m.members.contains_key(node) && m.members[node].generation == generation {
        (
            Membership { members: m.members.remove(node), unreachable: m.unreachable.remove(node) },
            seq![ClusterEventView::Left(m.members[node])],
        )
    } else {
        (m, Seq::empty())
    }
}

/// What reporting `member` as failed does to `m`, and the events it
/// publishes: the member goes if it was up in exactly that incarnation, and
/// nothing happens otherwise.
pub open spec fn failure_outcome(m: Membership, member: MemberView) -> (Membership, Seq<ClusterEventView>) {
    if m.members.contains_key(member.name) && m.members[member.name] == member {
        (
            Membership { members: m.members.remove(member.name), unreachable: m.unreachable.remove(member.name) },
            seq![ClusterEventView::Failed(member)],
        )
    } else {
        (m, Seq::empty())
    }
}

proof fn lemma_member_map_lookup(s: Seq<Member>)
    requires
        names_unique(s),
    ensures
        forall|k: Seq<char>|
            #[trigger] member_map(s).contains_key(k) <==> exists|i: int| 0 <= i < s.len() && s[i].name@ == k,
        forall|i: int| 0 <= i < s.len() ==> #[trigger] member_map(s)[s[i].name@] == s[i]@,
    decreases s.len(),
{
    if s.len() > 0 {
        let t = s.drop_last();
        assert forall|i: int, j: int|
            0 <= i < t.len() && 0 <= j < t.len() && i != j implies #[trigger] t[i].name@
            != #[trigger] t[j].name@ by {
            assert(t[i] == s[i] && t[j] == s[j]);
        }
        lemma_member_map_lookup(t);
        assert(member_map(s) == member_map(t).insert(s.last().name@, s.last()@));
        assert forall|k: Seq<char>| #[trigger]
            member_map(s).contains_key(k) <==> exists|i: int| 0 <= i < s.len() && s[i].name@ == k by {
            if member_map(s).contains_key(k) && k != s.last().name@ {
                assert(member_map(t).contains_key(k));
                let i = choose|i: int| 0 <= i < t.len() && t[i].name@ == k;
                assert(s[i] == t[i]);
            }
            if exists|i: int| 0 <= i < s.len() && s[i].name@ == k {
                let i = choose|i: int| 0 <= i < s.len() && s[i].name@ == k;
                if i < s.len() - 1 {
                    assert(t[i] == s[i]);
                }
            }
        }
        assert forall|i: int| 0 <= i < s.len() implies #[trigger] member_map(s)[s[i].name@] == s[i]@ by {
            if i < s.len() - 1 {
                assert(t[i] == s[i]);
                assert(s[i].name@ != s[s.len() - 1].name@);
            }
        }
    }
}

proof fn lemma_member_map_push(s: Seq<Member>, m: Member)
    requires
        names_unique(s),
        !member_map(s).contains_key(m.name@),
    ensures
        names_unique(s.push(m)),
        member_map(s.push(m)) == member_map(s).insert(m.name@, m@),
{
    lemma_member_map_lookup(s);
    assert(s.push(m).drop_last() =~= s);
    assert forall|i: int, j: int|
        0 <= i < s.push(m).len() && 0 <= j < s.push(m).len() && i != j implies #[trigger] s.push(
        m,
    )[i].name@ != #[trigger] s.push(m)[j].name@ by {
        if i < s.len() && j < s.len() {
            assert(s.push(m)[i] == s[i] && s.push(m)[j] == s[j]);
        } else if i < s.len() {
            assert(s.push(m)[i] == s[i]);
        } else if j < s.len() {
            assert(s.push(m)[j] == s[j]);
        }
    }
}

proof fn lemma_member_map_update(s: Seq<Member>, i: int, m: Member)
    requires
        names_unique(s),
        0 <= i < s.len(),
        m.name@ == s[i].name@,
    ensures
        names_unique(s.update(i, m)),
        member_map(s.update(i, m)) == member_map(s).insert(m.name@, m@),
{
    let u = s.update(i, m);
    assert forall|a: int, b: int|
        0 <= a < u.len() && 0 <= b < u.len() && a != b implies #[trigger] u[a].name@
        != #[trigger] u[b].name@ by {
        assert(u[a].name@ == s[a].name@);
        assert(u[b].name@ == s[b].name@);
    }
    lemma_member_map_lookup(s);
    lemma_member_map_lookup(u);
    assert forall|k: Seq<char>| #[trigger]
        member_map(u).contains_key(k) <==> member_map(s).insert(m.name@, m@).contains_key(k) by {
        if member_map(u).contains_key(k) {
            let j = choose|j: int| 0 <= j < u.len() && u[j].name@ == k;
            assert(s[j].name@ == k);
        }
        if member_map(s).contains_key(k) {
            let j = choose|j: int| 0 <= j < s.len() && s[j].name@ == k;
            assert(u[j].name@ == k);
        }
        if k == m.name@ {
            assert(u[i].name@ == k);
        }
    }
    assert forall|k: Seq<char>| #[trigger] member_map(u).contains_key(k) implies member_map(u)[k]
        == member_map(s).insert(m.name@, m@)[k] by {
        let j = choose|j: int| 0 <= j < u.len() && u[j].name@ == k;
        assert(member_map(u)[u[j].name@] == u[j]@);
        if j != i {
            assert(member_map(s)[s[j].name@] == s[j]@);
        }
    }
    assert(member_map(u) =~= member_map(s).insert(m.name@, m@));
}

proof fn lemma_member_map_remove(s: Seq<Member>, i: int)
    requires
        names_unique(s),
        0 <= i < s.len(),
    ensures
        names_unique(s.remove(i)),
        member_map(s.remove(i)) == member_map(s).remove(s[i].name@),
{
    let u = s.remove(i);
    assert forall|a: int, b: int|
        0 <= a < u.len() && 0 <= b < u.len() && a != b implies #[trigger] u[a].name@
        != #[trigger] u[b].name@ by {
        let a2 = if a < i { a } else { a + 1 };
        let b2 = if b < i { b } else { b + 1 };
        assert(u[a] == s[a2]);
        assert(u[b] == s[b2]);
    }
    lemma_member_map_lookup(s);
    lemma_member_map_lookup(u);
    assert forall|k: Seq<char>| #[trigger]
        member_map(u).contains_key(k) <==> member_map(s).remove(s[i].name@).contains_key(k) by {
        if member_map(u).contains_key(k) {
            let j = choose|j: int| 0 <= j < u.len() && u[j].name@ == k;
            let j2 = if j < i { j } else { j + 1 };
            assert(u[j] == s[j2]);
        }
        if member_map(s).contains_key(k) && k != s[i].name@ {
            let j = choose|j: int| 0 <= j < s.len() && s[j].name@ == k;
            let j2 = if j < i { j } else { j - 1 };
            assert(u[j2] == s[j]);
        }
    }
    assert forall|k: Seq<char>| #[trigger] member_map(u).contains_key(k) implies member_map(u)[k]
        == member_map(s).remove(s[i].name@)[k] by {
        let j = choose|j: int| 0 <= j < u.len() && u[j].name@ == k;
        let j2 = if j < i { j } else { j + 1 };
        assert(u[j] == s[j2]);
        assert(member_map(u)[u[j].name@] == u[j]@);
        assert(member_map(s)[s[j2].name@] == s[j2]@);
    }
    assert(member_map(u) =~= member_map(s).remove(s[i].name@));
}

proof fn lemma_name_set_push(s: Seq<NodeName>, n: NodeName)
    requires
        unique_names(s),
        !name_set(s).contains(n@),
    ensures
        unique_names(s.push(n)),
        name_set(s.push(n)) == name_set(s).insert(n@),
{
    let u = s.push(n);
    assert forall|a: int, b: int| 0 <= a < u.len() && 0 <= b < u.len() && a != b implies #[trigger] u[a]@
        != #[trigger] u[b]@ by {
        if a < s.len() {
            assert(u[a] == s[a]);
        }
        if b < s.len() {
            assert(u[b] == s[b]);
        }
    }
    assert forall|k: Seq<char>| #[trigger] name_set(u).contains(k) <==> name_set(s).insert(n@).contains(k) by {
        if name_set(u).contains(k) {
            let j = choose|j: int| 0 <= j < u.len() && u[j]@ == k;
            if j < s.len() {
                assert(u[j] == s[j]);
            }
        }
        if name_set(s).contains(k) {
            let j = choose|j: int| 0 <= j < s.len() && s[j]@ == k;
            assert(u[j] == s[j]);
        }
        if k == n@ {
            assert(u[s.len() as int] == n);
        }
    }
    assert(name_set(u) =~= name_set(s).insert(n@));
}

proof fn lemma_name_set_remove(s: Seq<NodeName>, i: int)
    requires
        unique_names(s),
        0 <= i < s.len(),
    ensures
        unique_names(s.remove(i)),
        name_set(s.remove(i)) == name_set(s).remove(s[i]@),
{
    let u = s.remove(i);
    assert forall|a: int, b: int| 0 <= a < u.len() && 0 <= b < u.len() && a != b implies #[trigger] u[a]@
        != #[trigger] u[b]@ by {
        let a2 = if a < i { a } else { a + 1 };
        let b2 = if b < i { b } else { b + 1 };
        assert(u[a] == s[a2]);
        assert(u[b] == s[b2]);
    }
    assert forall|k: Seq<char>| #[trigger] name_set(u).contains(k) <==> name_set(s).remove(s[i]@).contains(k) by {
        if name_set(u).contains(k) {
            let j = choose|j: int| 0 <= j < u.len() && u[j]@ == k;
            let j2 = if j < i { j } else { j + 1 };
            assert(u[j] == s[j2]);
        }
        if name_set(s).contains(k) && k != s[i]@ {
            let j = choose|j: int| 0 <= j < s.len() && s[j]@ == k;
            let j2 = if j < i { j } else { j - 1 };
            assert(u[j2] == s[j]);
        }
    }
    assert(name_set(u) =~= name_set(s).remove(s[i]@));
}

/// The position of the member named `name` in `members`, if there is one.
fn find_member(members: &Vec<Member>, name: &NodeName) -> (r: Option<usize>)
    ensures
        match r {
            Some(i) => i < members@.len() && members@[i as int].name@ == name@,
            None => forall|i: int| 0 <= i < members@.len() ==> members@[i].name@ != name@,
        },
{
    let mut i: usize = 0;
    while i < members.len()
        invariant
            i <= members@.len(),
            forall|j: int| 0 <= j < i ==> members@[j].name@ != name@,
        decreases members@.len() - i,
    {
        if members[i].name.same(name) {
            return Some(i);
        }
        i = i + 1;
    }
    None
}

/// The position of `name` in `names`, if it is there.
fn find_name(names: &Vec<NodeName>, name: &NodeName) -> (r: Option<usize>)
    ensures
        match r {
            Some(i) => i < names@.len() && names@[i as int]@ == name@,
            None => forall|i: int| 0 <= i < names@.len() ==> names@[i]@ != name@,
        },
{
    let mut i: usize = 0;
    while i < names.len()
        invariant
            i <= names@.len(),
            forall|j: int| 0 <= j < i ==> names@[j]@ != name@,
        decreases names@.len() - i,
    {
        if names[i].same(name) {
            return Some(i);
        }
        i = i + 1;
    }
    None
}

/// What this node knows about the cluster: itself, the other nodes considered
/// up, and which of those it can't currently connect to.
pub struct ClusterState {
    local: Member,
    members: Vec<Member>,
    /// Members that can't currently be connected to.
    unreachable: Vec<NodeName>,
}

/// The members of a cluster at one moment.
pub struct ClusterSnapshot {
    /// The other nodes considered up, in no particular order.
    members: Vec<Member>,
    unreachable: Vec<NodeName>,
}

impl ClusterSnapshot {
    /// The members and unreachable nodes it holds, as a value.
    pub closed spec fn membership(&self) -> Membership {
        Membership { members: member_map(self.members@), unreachable: name_set(self.unreachable@) }
    }

    /// No two of its members have the same name.
    pub closed spec fn wf(&self) -> bool {
        names_unique(self.members@)
    }

    /// The other nodes considered up, in no particular order.
    pub fn members(&self) -> (r: &Vec<Member>)
        requires
            self.wf(),
        ensures
            names_unique(r@),
            member_map(r@) == self.membership().members,
    {
        &self.members
    }

    /// Whether `node` was a member that could be connected to.
    pub fn is_reachable(&self, node: &NodeName) -> (r: bool)
        requires
            self.wf(),
        ensures
            r == reachable_in(self.membership(), node@),
    {
        proof {
            lemma_member_map_lookup(self.members@);
        }
        match find_name(&self.unreachable, node) {
            Some(i) => {
                assert(name_set(self.unreachable@).contains(node@)) by {
                    assert(self.unreachable@[i as int]@ == node@);
                }
                false
            },
            None => match find_member(&self.members, node) {
                Some(_) => true,
                None => false,
            },
        }
    }
}

impl ClusterState {
    /// Members have distinct names, and every name reported unreachable is a
    /// member's, once.
    pub closed spec fn wf(&self) -> bool {
        &&& names_unique(self.members@)
        &&& unique_names(self.unreachable@)
        &&& name_set(self.unreachable@) <= member_map(self.members@).dom()
    }

    /// Only members are ever reported unreachable.
    pub proof fn lemma_unreachable_are_members(&self)
        requires
            self.wf(),
        ensures
            self.membership().unreachable.subset_of(self.membership().members.dom()),
    {
    }

    /// Who is in the cluster, as a value.
    pub closed spec fn membership(&self) -> Membership {
        Membership { members: member_map(self.members@), unreachable: name_set(self.unreachable@) }
    }

    /// This node, as the rest of the cluster knows it.
    pub closed spec fn local_view(&self) -> MemberView {
        self.local@
    }

    /// A node that knows of no other member yet.
    pub fn new(local: Member) -> (r: ClusterState)
        ensures
            r.wf(),
            r.local_view() == local@,
            r.membership().members == Map::<Seq<char>, MemberView>::empty(),
            r.membership().unreachable == Set::<Seq<char>>::empty(),
    {
        let r = ClusterState { local, members: Vec::new(), unreachable: Vec::new() };
        assert(r.membership().members =~= Map::<Seq<char>, MemberView>::empty());
        assert(r.membership().unreachable =~= Set::<Seq<char>>::empty());
        r
    }

    /// This node, as the rest of the cluster knows it.
    pub fn local(&self) -> (r: Member)
        ensures
            r@ == self.local_view(),
    {
        self.local.clone()
    }

    /// Records how the rest of the cluster knows this node now.
    pub fn set_local(&mut self, local: Member)
        requires
            old(self).wf(),
        ensures
            final(self).wf(),
            final(self).local_view() == local@,
            final(self).membership() == old(self).membership(),
    {
        self.local = local;
    }

    /// The other nodes currently considered up, in no particular order.
    pub fn members(&self) -> (r: Vec<Member>)
        requires
            self.wf(),
        ensures
            names_unique(r@),
            member_map(r@) == self.membership().members,
    {
        let mut out: Vec<Member> = Vec::new();
        let mut i: usize = 0;
        while i < self.members.len()
            invariant
                i <= self.members@.len(),
                out@ == self.members@.take(i as int),
            decreases self.members@.len() - i,
        {
            out.push(self.members[i].clone());
            assert(out@ =~= self.members@.take(i + 1));
            i = i + 1;
        }
        assert(out@ =~= self.members@);
        out
    }

    /// The other node named `node`, if it is currently up.
    pub fn member(&self, node: &NodeName) -> (r: Option<Member>)
        requires
            self.wf(),
        ensures
            match r {
                Some(m) => self.membership().members.contains_key(node@) && m@ == self.membership().members[node@],
                None => !self.membership().members.contains_key(node@),
            },
    {
        proof {
            lemma_member_map_lookup(self.members@);
        }
        match find_member(&self.members, node) {
            Some(i) => Some(self.members[i].clone()),
            None => None,
        }
    }

    /// Whether `member`, in this very incarnation, is currently up.
    pub fn contains(&self, member: &Member) -> (r: bool)
        requires
            self.wf(),
        ensures
            r == (self.membership().members.contains_key(member.name@)
                && self.membership().members[member.name@] == member@),
    {
        proof {
            lemma_member_map_lookup(self.members@);
        }
        match find_member(&self.members, &member.name) {
            Some(i) => self.members[i].same(member),
            None => false,
        }
    }

    /// Whether `node` is a member that this node can currently connect to.
    /// False for nodes that aren't members, and for those reported as
    /// unreachable.
    pub fn is_reachable(&self, node: &NodeName) -> (r: bool)
        requires
            self.wf(),
        ensures
            r == reachable_in(self.membership(), node@),
    {
        proof {
            lemma_member_map_lookup(self.members@);
        }
        match find_member(&self.members, node) {
            None => false,
            Some(_) => match find_name(&self.unreachable, node) {
                Some(i) => {
                    assert(self.unreachable@[i as int]@ == node@);
                    false
                },
                None => true,
            },
        }
    }

    /// The current members, and which of them are unreachable, as one
    /// snapshot.
    pub fn snapshot(&self) -> (r: ClusterSnapshot)
        requires
            self.wf(),
        ensures
            r.membership() == self.membership(),
            r.wf(),
    {
        let members = self.members();
        let mut unreachable: Vec<NodeName> = Vec::new();
        let mut i: usize = 0;
        while i < self.unreachable.len()
            invariant
                i <= self.unreachable@.len(),
                unreachable@ == self.unreachable@.take(i as int),
            decreases self.unreachable@.len() - i,
        {
            unreachable.push(self.unreachable[i].clone());
            assert(unreachable@ =~= self.unreachable@.take(i + 1));
            i = i + 1;
        }
        assert(unreachable@ =~= self.unreachable@);
        ClusterSnapshot { members, unreachable }
    }

    /// Takes `node` off the unreachable list, if it is on it.
    fn clear_unreachable(&mut self, node: &NodeName)
        requires
            names_unique(old(self).members@),
            unique_names(old(self).unreachable@),
        ensures
            final(self).members == old(self).members,
            final(self).local == old(self).local,
            unique_names(final(self).unreachable@),
            name_set(final(self).unreachable@) == name_set(old(self).unreachable@).remove(node@),
    {
        match find_name(&self.unreachable, node) {
            Some(i) => {
                proof {
                    lemma_name_set_remove(self.unreachable@, i as int);
                }
                self.unreachable.remove(i);
            },
            None => {
                assert(name_set(self.unreachable@) =~= name_set(self.unreachable@).remove(node@));
            },
        }
    }

    /// `member` is up: it joined, or came back in a new incarnation. Publishes
    /// `Up` unless it was already known exactly so.
    pub fn member_up(&mut self, member: Member) -> (events: Vec<ClusterEvent>)
        requires
            old(self).wf(),
        ensures
            final(self).wf(),
            final(self).local_view() == old(self).local_view(),
            ({
                let before = old(self).membership();
                let known = before.members.contains_key(member.name@) && before.members[member.name@] == member@;
                &&& final(self).membership().members == before.members.insert(member.name@, member@)
                &&& known ==> final(self).membership() == before && events@.len() == 0
                &&& !known ==> final(self).membership().unreachable == before.unreachable.remove(member.name@)
                    && event_views(events@) == seq![ClusterEventView::Up(member@)]
                &&& replay(before, event_views(events@)) == final(self).membership()
            }),
    {
        proof {
            lemma_member_map_lookup(self.members@);
        }
        let ghost before = self.membership();
        proof {
            lemma_replay_short(before, ClusterEventView::Up(member@), ClusterEventView::Up(member@));
        }
        match find_member(&self.members, &member.name) {
            Some(i) => {
                if self.members[i].same(&member) {
                    assert(before.members.insert(member.name@, member@) =~= before.members);
                    let none: Vec<ClusterEvent> = Vec::new();
                    assert(event_views(none@) =~= Seq::<ClusterEventView>::empty());
                    return none;
                }
                proof {
                    lemma_member_map_update(self.members@, i as int, member);
                }
                self.members.set(i, member.clone());
            },
            None => {
                proof {
                    lemma_member_map_push(self.members@, member);
                }
                self.members.push(member.clone());
            },
        }
        self.clear_unreachable(&member.name);
        let mut events: Vec<ClusterEvent> = Vec::new();
        events.push(ClusterEvent::Up(member));
        assert(event_views(events@) =~= seq![ClusterEventView::Up(member@)]);
        assert(event_views(events@).skip(1) =~= Seq::<ClusterEventView>::empty());
        assert(self.membership().members =~= before.members.insert(member.name@, member@));
        events
    }

    /// This node can't connect to `node`. Publishes `Unreachable` if `node` is
    /// a member and that is news.
    pub fn member_unreachable(&mut self, node: &NodeName) -> (events: Vec<ClusterEvent>)
        requires
            old(self).wf(),
        ensures
            final(self).wf(),
            final(self).local_view() == old(self).local_view(),
            ({
                let before = old(self).membership();
                let news = before.members.contains_key(node@) && !before.unreachable.contains(node@);
                &&& final(self).membership().members == before.members
                &&& news ==> final(self).membership().unreachable == before.unreachable.insert(node@)
                    && event_views(events@) == seq![ClusterEventView::Unreachable(before.members[node@])]
                &&& !news ==> final(self).membership() == before && events@.len() == 0
                &&& replay(before, event_views(events@)) == final(self).membership()
            }),
    {
        proof {
            lemma_member_map_lookup(self.members@);
        }
        let ghost before = self.membership();
        proof {
            lemma_replay_short(before, ClusterEventView::Unreachable(before.members[node@]), ClusterEventView::Unreachable(before.members[node@]));
        }
        let mut events: Vec<ClusterEvent> = Vec::new();
        match find_member(&self.members, node) {
            None => {},
            Some(i) => match find_name(&self.unreachable, node) {
                Some(j) => {
                    assert(self.unreachable@[j as int]@ == node@);
                },
                None => {
                    proof {
                        lemma_name_set_push(self.unreachable@, *node);
                    }
                    self.unreachable.push(node.clone());
                    events.push(ClusterEvent::Unreachable(self.members[i].clone()));
                    assert(event_views(events@) =~= seq![ClusterEventView::Unreachable(before.members[node@])]);
                    assert(event_views(events@).skip(1) =~= Seq::<ClusterEventView>::empty());
                    assert(name_set(self.unreachable@) <= member_map(self.members@).dom());
                },
            },
        }
        assert(event_views(events@).len() == events@.len());
        events
    }

    /// This node can connect to `node` again. Publishes `Reachable` if it had
    /// been reported unreachable.
    pub fn member_reachable(&mut self, node: &NodeName) -> (events: Vec<ClusterEvent>)
        requires
            old(self).wf(),
        ensures
            final(self).wf(),
            final(self).local_view() == old(self).local_view(),
            ({
                let before = old(self).membership();
                let news = before.members.contains_key(node@) && before.unreachable.contains(node@);
                &&& final(self).membership().members == before.members
                &&& news ==> final(self).membership().unreachable == before.unreachable.remove(node@)
                    && event_views(events@) == seq![ClusterEventView::Reachable(before.members[node@])]
                &&& !news ==> final(self).membership() == before && events@.len() == 0
                &&& replay(before, event_views(events@)) == final(self).membership()
            }),
    {
        proof {
            lemma_member_map_lookup(self.members@);
        }
        let ghost before = self.membership();
        proof {
            lemma_replay_short(before, ClusterEventView::Reachable(before.members[node@]), ClusterEventView::Reachable(before.members[node@]));
        }
        let mut events: Vec<ClusterEvent> = Vec::new();
        match find_member(&self.members, node) {
            None => {},
            Some(i) => match find_name(&self.unreachable, node) {
                None => {},
                Some(j) => {
                    assert(self.unreachable@[j as int]@ == node@);
                    proof {
                        lemma_name_set_remove(self.unreachable@, j as int);
                    }
                    self.unreachable.remove(j);
                    events.push(ClusterEvent::Reachable(self.members[i].clone()));
                    assert(event_views(events@) =~= seq![ClusterEventView::Reachable(before.members[node@])]);
                    assert(event_views(events@).skip(1) =~= Seq::<ClusterEventView>::empty());
                },
            },
        }
        assert(event_views(events@).len() == events@.len());
        events
    }

    /// Removes the member at `i` and its unreachable mark.
    fn remove_member_at(&mut self, i: usize)
        requires
            old(self).wf(),
            i < old(self).members@.len(),
        ensures
            final(self).wf(),
            final(self).local == old(self).local,
            final(self).membership().members == old(self).membership().members.remove(
                old(self).members@[i as int].name@,
            ),
            final(self).membership().unreachable == old(self).membership().unreachable.remove(
                old(self).members@[i as int].name@,
            ),
    {
        let name = self.members[i].name.clone();
        proof {
            lemma_member_map_remove(self.members@, i as int);
        }
        self.members.remove(i);
        self.clear_unreachable(&name);
    }

    /// The node said goodbye. Publishes `Left` if it was known in that
    /// generation.
    pub fn member_left(&mut self, node: &NodeName, generation: u64) -> (events: Vec<ClusterEvent>)
        requires
            old(self).wf(),
        ensures
            final(self).wf(),
            final(self).local_view() == old(self).local_view(),
            (final(self).membership(), event_views(events@)) == left_outcome(old(self).membership(), node@, generation),
            replay(old(self).membership(), event_views(events@)) == final(self).membership(),
            !(old(self).membership().members.contains_key(node@)
                && old(self).membership().members[node@].generation == generation) ==> events@.len() == 0
                && final(self).membership() == old(self).membership(),
            old(self).membership().members.contains_key(node@)
                && old(self).membership().members[node@].generation == generation ==> event_views(events@)
                == seq![ClusterEventView::Left(old(self).membership().members[node@])]
                && !final(self).membership().members.contains_key(node@)
                && !final(self).membership().unreachable.contains(node@),
    {
        proof {
            lemma_member_map_lookup(self.members@);
        }
        let ghost before = self.membership();
        proof {
            lemma_replay_short(before, ClusterEventView::Left(before.members[node@]), ClusterEventView::Left(before.members[node@]));
        }
        let mut events: Vec<ClusterEvent> = Vec::new();
        match find_member(&self.members, node) {
            None => {},
            Some(i) => {
                if self.members[i].generation == generation {
                    let member = self.members[i].clone();
                    self.remove_member_at(i);
                    events.push(ClusterEvent::Left(member));
                    assert(event_views(events@) =~= seq![ClusterEventView::Left(before.members[node@])]);
                    assert(event_views(events@).skip(1) =~= Seq::<ClusterEventView>::empty());
                }
            },
        }
        assert(event_views(events@).len() == events@.len());
        events
    }

    /// The node was declared down without saying goodbye. Publishes `Failed`
    /// if it was up in exactly that incarnation.
    pub fn member_failed(&mut self, member: &Member) -> (events: Vec<ClusterEvent>)
        requires
            old(self).wf(),
        ensures
            final(self).wf(),
            final(self).local_view() == old(self).local_view(),
            (final(self).membership(), event_views(events@)) == failure_outcome(old(self).membership(), member@),
            replay(old(self).membership(), event_views(events@)) == final(self).membership(),
    {
        proof {
            lemma_member_map_lookup(self.members@);
        }
        let ghost before = self.membership();
        proof {
            lemma_replay_short(before, ClusterEventView::Failed(member@), ClusterEventView::Failed(member@));
        }
        let mut events: Vec<ClusterEvent> = Vec::new();
        match find_member(&self.members, &member.name) {
            None => {},
            Some(i) => {
                if self.members[i].same(member) {
                    self.remove_member_at(i);
                    events.push(ClusterEvent::Failed(member.clone()));
                    assert(event_views(events@) =~= seq![ClusterEventView::Failed(member@)]);
                    assert(event_views(events@).skip(1) =~= Seq::<ClusterEventView>::empty());
                }
            },
        }
        assert(event_views(events@).len() == events@.len());
        events
    }

    /// A restarted node replaced its previous incarnation `before` with
    /// `after`. Publishes `Failed` for the one and `Up` for the other, if
    /// `before` was up in exactly that incarnation.
    pub fn member_renamed(&mut self, before: &Member, after: Member) -> (events: Vec<ClusterEvent>)
        requires
            old(self).wf(),
        ensures
            final(self).wf(),
            final(self).local_view() == old(self).local_view(),
            ({
                let was = old(self).membership();
                let known = was.members.contains_key(before.name@) && was.members[before.name@] == before@;
                &&& known ==> final(self).membership().members == was.members.insert(after.name@, after@)
                    && final(self).membership().unreachable == was.unreachable.remove(after.name@)
                    && event_views(events@) == seq![
                        ClusterEventView::Failed(before@),
                        ClusterEventView::Up(after@),
                    ]
                &&& !known ==> final(self).membership() == was && events@.len() == 0
                &&& before.name@ == after.name@ ==> replay(was, event_views(events@)) == final(self).membership()
            }),
    {
        proof {
            lemma_member_map_lookup(self.members@);
        }
        let ghost was = self.membership();
        proof {
            lemma_replay_short(was, ClusterEventView::Failed(before@), ClusterEventView::Up(after@));
        }
        let mut events: Vec<ClusterEvent> = Vec::new();
        match find_member(&self.members, &before.name) {
            None => {},
            Some(i) => {
                if self.members[i].same(before) {
                    match find_member(&self.members, &after.name) {
                        Some(j) => {
                            proof {
                                lemma_member_map_update(self.members@, j as int, after);
                            }
                            self.members.set(j, after.clone());
                        },
                        None => {
                            proof {
                                lemma_member_map_push(self.members@, after);
                            }
                            self.members.push(after.clone());
                        },
                    }
                    self.clear_unreachable(&after.name);
                    events.push(ClusterEvent::Failed(before.clone()));
                    events.push(ClusterEvent::Up(after));
                    let ghost evs = event_views(events@);
                    assert(evs =~= seq![ClusterEventView::Failed(before@), ClusterEventView::Up(after@)]);
                    assert(evs.skip(1) =~= seq![ClusterEventView::Up(after@)]);
                    assert(evs.skip(1).skip(1) =~= Seq::<ClusterEventView>::empty());
                    proof {
                        if before.name@ == after.name@ {
                            let m1 = apply_event(was, ClusterEventView::Failed(before@));
                            let m2 = apply_event(m1, ClusterEventView::Up(after@));
                            assert(m2.members =~= self.membership().members);
                            assert(m2.unreachable =~= self.membership().unreachable);
                        }
                    }
                }
            },
        }
        assert(event_views(events@).len() == events@.len());
        events
    }
}

} // verus!
