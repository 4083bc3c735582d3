//! Why a cluster node stopped running, and the exit code that says so.
use vstd::prelude::*;

verus! {

/// Why a cluster node stopped running.
#[derive(Debug, Clone, PartialEq, Eq)]
pub enum ClusterNodeError {
    /// The network backend could not be started, for example because it could
    /// not listen on its address or rejected the node name. The reason is
    /// given.
    Backend(String),
    /// The generation could not be read from or recorded in the store file.
    /// The reason is given.
    Generation(String),
    /// The node running the root supervisor stopped with an error, which
    /// asked to be reported with the exit code given.
    Node(i32),
}

impl ClusterNodeError {
    /// The process exit code this error should be reported with.
    pub fn exit_code(&self) -> (r: i32)
        ensures
            r == (match self {
                ClusterNodeError::Node(code) => *code,
                _ => 1i32,
            }),
    {
        match self {
            ClusterNodeError::Node(code) => *code,
            ClusterNodeError::Backend(_) | ClusterNodeError::Generation(_) => 1,
        }
    }
}

} // verus!
