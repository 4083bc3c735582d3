//! A node as the membership protocol knows it, and the changes in which nodes
//! are part of the cluster.
use crate::names::{NodeAddr, NodeName};
use vstd::prelude::*;

verus! {

/// A node in the cluster, as known to the membership protocol.
///
/// A node is identified by its name alone; `addr` is only where it can
/// currently be reached and may change between restarts. The `generation`
/// distinguishes successive incarnations of the same node, so a restarted node
/// replaces its previous incarnation.
#[derive(Debug, PartialEq, Eq, Hash)]
pub struct Member {
    /// The node's name.
    pub name: NodeName,
    /// The address peers currently reach the node on.
    pub addr: NodeAddr,
    /// Increases every time the node restarts.
    pub generation: u64,
}

/// A member, as a value.
pub struct MemberView {
    pub name: Seq<char>,
    pub addr: Seq<char>,
    pub generation: u64,
}

impl View for Member {
    type V = MemberView;

    open spec fn view(&self) -> MemberView {
        MemberView { name: self.name@, addr: self.addr@, generation: self.generation }
    }
}

impl Clone for Member {
    fn clone(&self) -> (r: Self)
        ensures
            r == *self,
    {
        Member { name: self.name.clone(), addr: self.addr.clone(), generation: self.generation }
    }
}

/// The next incarnation of `m`, at the same address; `None` once the
/// generations are used up.
pub open spec fn renewal(m: MemberView) -> Option<MemberView> {
    if m.generation == u64::MAX {
        None
    } else {
        Some(MemberView { generation: (m.generation + 1) as u64, ..m })
    }
}

/// Whether the incarnation `a` wins over `b` when both claim the same name:
/// the later one does.
pub open spec fn wins(a: MemberView, b: MemberView) -> bool {
    a.generation > b.generation
}

/// A renewed node wins over the incarnation it renews, as the membership
/// protocol asks of a node that rejoins after being declared down, and over
/// every earlier one.
pub proof fn lemma_a_renewed_node_wins(m: MemberView, earlier: MemberView)
    requires
        earlier.name == m.name,
        earlier.generation <= m.generation,
    ensures
        renewal(m) matches Some(n) ==> wins(n, m) && wins(n, earlier) && !wins(m, n) && n.name == m.name,
{
}

impl Member {
    /// The member `name` at `addr` in its incarnation `generation`.
    pub fn new(name: NodeName, addr: NodeAddr, generation: u64) -> (r: Member)
        ensures
            r.name == name,
            r.addr == addr,
            r.generation == generation,
    {
        Member { name, addr, generation }
    }

    /// Whether both are the same node in the same incarnation at the same
    /// address.
    pub fn same(&self, other: &Member) -> (r: bool)
        ensures
            r == (self@ == other@),
    {
        self.name.same(&other.name) && self.addr.same(&other.addr) && self.generation
            == other.generation
    }

    /// The next incarnation of this node, at the same address: how the
    /// membership protocol renews a node that was declared down. `None` once
    /// the generations are used up.
    pub fn renew(&self) -> (r: Option<Member>)
        ensures
            match r {
                None => renewal(self@) is None,
                Some(m) => renewal(self@) == Some(m@),
            },
    {
        if self.generation == u64::MAX {
            return None;
        }
        Some(Member { name: self.name.clone(), addr: self.addr.clone(), generation: self.generation + 1 })
    }

    /// Whether this incarnation wins over `adversary` when both claim the same
    /// name: the later one does.
    pub fn win_addr_conflict(&self, adversary: &Member) -> (r: bool)
        ensures
            r == wins(self@, adversary@),
    {
        self.generation > adversary.generation
    }
}

/// A node to contact when joining the cluster.
#[derive(Debug, PartialEq, Eq)]
pub struct Seed {
    /// The seed's node name, which its certificate must carry.
    pub node: NodeName,
    /// Where it can be reached.
    pub addr: NodeAddr,
}

impl Clone for Seed {
    fn clone(&self) -> (r: Self)
        ensures
            r == *self,
    {
        Seed { node: self.node.clone(), addr: self.addr.clone() }
    }
}

impl Seed {
    /// The node `node`, reached at `addr`.
    pub fn new(node: NodeName, addr: NodeAddr) -> (r: Seed)
        ensures
            r.node == node,
            r.addr == addr,
    {
        Seed { node, addr }
    }

    /// The seed as the membership protocol first knows it: in no particular
    /// incarnation yet, which is generation 0.
    pub fn as_member(&self) -> (r: Member)
        ensures
            r@ == (MemberView { name: self.node@, addr: self.addr@, generation: 0 }),
    {
        Member { name: self.node.clone(), addr: self.addr.clone(), generation: 0 }
    }
}

/// A change in which nodes are part of the cluster.
#[derive(Debug, PartialEq, Eq)]
pub enum ClusterEvent {
    /// A node joined, or was rediscovered after being declared down.
    Up(Member),
    /// A node announced that it was shutting down cleanly.
    Left(Member),
    /// A node was declared down by the failure detector without saying
    /// goodbye: it crashed or became unreachable.
    ///
    /// A node that restarts before being noticed is reported as `Failed` for
    /// its previous incarnation followed by `Up` for the new one.
    Failed(Member),
    /// This node can't connect to a node that is still considered up. It is
    /// followed by `Reachable` if the node answers again, or by `Failed` or
    /// `Left` if it goes away.
    Unreachable(Member),
    /// A node reported `Unreachable` can be connected to again.
    Reachable(Member),
}

/// A change, as a value.
pub enum ClusterEventView {
    Up(MemberView),
    Left(MemberView),
    Failed(MemberView),
    Unreachable(MemberView),
    Reachable(MemberView),
}

impl View for ClusterEvent {
    type V = ClusterEventView;

    open spec fn view(&self) -> ClusterEventView {
        match self {
            ClusterEvent::Up(m) => ClusterEventView::Up(m@),
            ClusterEvent::Left(m) => ClusterEventView::Left(m@),
            ClusterEvent::Failed(m) => ClusterEventView::Failed(m@),
            ClusterEvent::Unreachable(m) => ClusterEventView::Unreachable(m@),
            ClusterEvent::Reachable(m) => ClusterEventView::Reachable(m@),
        }
    }
}

/// The member that a change is about.
pub open spec fn event_member(e: ClusterEventView) -> MemberView {
    match e {
        ClusterEventView::Up(m) => m,
        ClusterEventView::Left(m) => m,
        ClusterEventView::Failed(m) => m,
        ClusterEventView::Unreachable(m) => m,
        ClusterEventView::Reachable(m) => m,
    }
}

impl Clone for ClusterEvent {
    fn clone(&self) -> (r: Self)
        ensures
            r == *self,
    {
        match self {
            ClusterEvent::Up(m) => ClusterEvent::Up(m.clone()),
            ClusterEvent::Left(m) => ClusterEvent::Left(m.clone()),
            ClusterEvent::Failed(m) => ClusterEvent::Failed(m.clone()),
            ClusterEvent::Unreachable(m) => ClusterEvent::Unreachable(m.clone()),
            ClusterEvent::Reachable(m) => ClusterEvent::Reachable(m.clone()),
        }
    }
}

impl ClusterEvent {
    /// The node this event is about.
    pub fn member(&self) -> (r: &Member)
        ensures
            r@ == event_member(self@),
    {
        match self {
            ClusterEvent::Up(member) => member,
            ClusterEvent::Left(member) => member,
            ClusterEvent::Failed(member) => member,
            ClusterEvent::Unreachable(member) => member,
            ClusterEvent::Reachable(member) => member,
        }
    }
}

} // verus!
