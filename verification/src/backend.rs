//! What the cluster asks of the network a node runs on.
use crate::names::NodeName;
use vstd::prelude::*;

verus! {

/// The node a network backend is started for.
#[derive(Debug, Clone)]
#[non_exhaustive]
pub struct NodeIncarnation {
    /// The node's name.
    pub name: NodeName,
    /// Which incarnation of the node this is: higher than that of any earlier
    /// run of the same node.
    pub generation: u64,
}

impl NodeIncarnation {
    /// Describes the node `name` in its incarnation `generation`.
    pub fn new(name: NodeName, generation: u64) -> (r: NodeIncarnation)
        ensures
            r.name == name,
            r.generation == generation,
    {
        NodeIncarnation { name, generation }
    }
}

/// Why a datagram couldn't be sent.
#[derive(Debug, Clone, Copy, PartialEq, Eq, Structural)]
#[non_exhaustive]
pub enum DatagramError {
    /// It doesn't fit in one datagram.
    TooLarge,
    /// The backend or the peer doesn't do datagrams.
    Unsupported,
    /// The connection is closed.
    Closed,
}

impl DatagramError {
    /// Whether a message that couldn't go as a datagram for this reason is to
    /// go over a stream instead, which delivers it just the same; otherwise
    /// the connection is gone.
    pub fn falls_back_to_stream(&self) -> (r: bool)
        ensures
            r == (*self != DatagramError::Closed),
    {
        match self {
            DatagramError::TooLarge | DatagramError::Unsupported => true,
            DatagramError::Closed => false,
        }
    }
}

} // verus!
