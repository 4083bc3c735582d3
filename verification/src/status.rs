//! What a node is doing, and how that may change.
use vstd::prelude::*;

verus! {

/// What this node is doing.
#[derive(Debug, Clone, Copy, PartialEq, Eq, Structural, Hash)]
pub enum NodeStatus {
    /// Not yet running, or not finished starting.
    Starting,
    /// Taking part in the cluster.
    Up,
    /// Announcing its departure and shutting down.
    Leaving,
    /// Declared down by the cluster and unable to rejoin. Its view of the
    /// cluster is no longer maintained and it should be restarted.
    Defunct,
}

/// Whether a node in status `current` may move to `next`: nothing follows
/// `Defunct`, and `Leaving` leads nowhere but out of the cluster.
pub open spec fn transition_allowed(current: NodeStatus, next: NodeStatus) -> bool {
    match current {
        NodeStatus::Defunct => false,
        NodeStatus::Leaving => next != NodeStatus::Up,
        _ => true,
    }
}

/// The status after asking to move from `current` to `requested`, and
/// whether that changed anything (so that watchers are told).
pub fn next_status(current: NodeStatus, requested: NodeStatus) -> (r: (NodeStatus, bool))
    ensures
        r.1 == (transition_allowed(current, requested) && current != requested),
        r.0 == (if r.1 { requested } else { current }),
        (current == NodeStatus::Starting || current == NodeStatus::Up) && requested != current ==> r == (
            requested,
            true,
        ),
        requested == current ==> r == (current, false),
        current == NodeStatus::Defunct ==> r == (NodeStatus::Defunct, false),
        current == NodeStatus::Leaving && requested == NodeStatus::Up ==> r == (NodeStatus::Leaving, false),
        current == NodeStatus::Leaving && (requested == NodeStatus::Starting || requested == NodeStatus::Defunct)
            ==> r == (requested, true),
{
    let allowed = match current {
        NodeStatus::Defunct => false,
        NodeStatus::Leaving => requested != NodeStatus::Up,
        _ => true,
    };
    let changed = allowed && current != requested;
    if changed {
        (requested, true)
    } else {
        (current, false)
    }
}

/// A defunct node stays defunct, and a leaving node never comes back up,
/// whatever is asked of it.
pub proof fn lemma_status_is_one_way(current: NodeStatus, requested: NodeStatus)
    ensures
        current == NodeStatus::Defunct ==> (if transition_allowed(current, requested)
            && current != requested { requested } else { current }) == NodeStatus::Defunct,
        current == NodeStatus::Leaving ==> (if transition_allowed(current, requested)
            && current != requested { requested } else { current }) != NodeStatus::Up,
{
}

/// What asking for a status does, by the status a node is in: a node that
/// is starting or up takes whatever other status it is asked for, and says
/// so; a defunct node stays defunct; a leaving node never comes back up, but
/// may still be declared defunct (or start over); asking for the status a
/// node already has changes nothing and tells nobody.
pub proof fn lemma_what_a_status_request_does(current: NodeStatus, requested: NodeStatus)
    ensures
        (current == NodeStatus::Starting || current == NodeStatus::Up) && requested != current
            ==> transition_allowed(current, requested),
        current == NodeStatus::Defunct ==> !transition_allowed(current, requested),
        current == NodeStatus::Leaving ==> (transition_allowed(current, requested) <==> requested
            != NodeStatus::Up),
        transition_allowed(NodeStatus::Up, NodeStatus::Leaving),
        transition_allowed(NodeStatus::Up, NodeStatus::Defunct),
        transition_allowed(NodeStatus::Starting, NodeStatus::Up),
{
}

} // verus!
