//! The timeouts and intervals of a node. Durations are counted in
//! nanoseconds; the longest one is `u64::MAX` seconds and `999_999_999`
//! nanoseconds, as for `std::time::Duration`.
use vstd::prelude::*;

verus! {

/// The longest duration there is, in nanoseconds.
pub const MAX_DURATION_NANOS: u128 = 18446744073709551615999999999u128;

/// A second, in nanoseconds.
pub const SECOND: u128 = 1000000000u128;

/// A millisecond, in nanoseconds.
pub const MILLISECOND: u128 = 1000000u128;

/// The timeouts and intervals of the connection and membership layers, in
/// nanoseconds.
///
/// How quickly failures are detected is decided by the membership protocol's
/// own settings instead. The defaults suit real networks; shorten them for
/// local tests.
#[derive(Debug, Clone, Copy, PartialEq, Eq, Structural)]
pub struct ClusterTimings {
    /// How long to wait for a connection to a peer to be established.
    pub connect_timeout: u128,
    /// How long to wait for a new connection's identity exchange.
    pub handshake_timeout: u128,
    /// How often idle connections send a keep-alive packet. Must be shorter
    /// than `idle_timeout`.
    pub keep_alive: u128,
    /// How long a connection may go without any packets before it is dropped.
    pub idle_timeout: u128,
    /// How long the sender for a peer lingers without messages to send.
    pub peer_idle: u128,
    /// How long to wait after a failed attempt to connect to a peer before
    /// trying again. Doubles with every further failure, up to
    /// `reconnect_backoff_max`. Messages for the peer in the meantime are
    /// dropped.
    pub reconnect_backoff_min: u128,
    /// The longest pause between attempts to connect to an unreachable peer.
    pub reconnect_backoff_max: u128,
    /// How often the seeds are contacted again while this node knows of no
    /// other member.
    pub seed_retry: u128,
    /// How long a node declared down by the failure detector may still turn
    /// out to have said goodbye, before it is reported as failed.
    pub departure_grace: u128,
    /// How long to wait for the membership protocol to announce our departure.
    pub leave_grace: u128,
    /// How long to wait for queued messages to be delivered when shutting
    /// down.
    pub shutdown_grace: u128,
}

impl ClusterTimings {
    /// Every field is a duration, no longer than the longest one there is.
    pub open spec fn wf(&self) -> bool {
        &&& self.connect_timeout <= MAX_DURATION_NANOS
        &&& self.handshake_timeout <= MAX_DURATION_NANOS
        &&& self.keep_alive <= MAX_DURATION_NANOS
        &&& self.idle_timeout <= MAX_DURATION_NANOS
        &&& self.peer_idle <= MAX_DURATION_NANOS
        &&& self.reconnect_backoff_min <= MAX_DURATION_NANOS
        &&& self.reconnect_backoff_max <= MAX_DURATION_NANOS
        &&& self.seed_retry <= MAX_DURATION_NANOS
        &&& self.departure_grace <= MAX_DURATION_NANOS
        &&& self.leave_grace <= MAX_DURATION_NANOS
        &&& self.shutdown_grace <= MAX_DURATION_NANOS
    }
}

impl Default for ClusterTimings {
    /// Timings that suit real networks.
    fn default() -> (r: Self)
        ensures
            r.connect_timeout == 5 * SECOND,
            r.handshake_timeout == 5 * SECOND,
            r.keep_alive == 5 * SECOND,
            r.idle_timeout == 30 * SECOND,
            r.peer_idle == 60 * SECOND,
            r.reconnect_backoff_min == 250 * MILLISECOND,
            r.reconnect_backoff_max == 10 * SECOND,
            r.seed_retry == 5 * SECOND,
            r.departure_grace == 300 * MILLISECOND,
            r.leave_grace == SECOND,
            r.shutdown_grace == 2 * SECOND,
            r.wf(),
    {
        ClusterTimings {
            connect_timeout: 5 * SECOND,
            handshake_timeout: 5 * SECOND,
            keep_alive: 5 * SECOND,
            idle_timeout: 30 * SECOND,
            peer_idle: 60 * SECOND,
            reconnect_backoff_min: 250 * MILLISECOND,
            reconnect_backoff_max: 10 * SECOND,
            seed_retry: 5 * SECOND,
            departure_grace: 300 * MILLISECOND,
            leave_grace: SECOND,
            shutdown_grace: 2 * SECOND,
        }
    }
}

/// The timeouts of the QUIC transport, in nanoseconds. The defaults suit
/// real networks; shorten them for local tests.
#[derive(Debug, Clone, Copy, PartialEq, Eq, Structural)]
pub struct QuicTimings {
    /// How often idle connections send a keep-alive packet. Must be shorter
    /// than `idle_timeout`.
    pub keep_alive: u128,
    /// How long a connection may go without any packets before it is dropped.
    pub idle_timeout: u128,
}

impl Default for QuicTimings {
    /// Timings that suit real networks.
    fn default() -> (r: Self)
        ensures
            r.keep_alive == 5 * SECOND,
            r.idle_timeout == 30 * SECOND,
    {
        QuicTimings { keep_alive: 5 * SECOND, idle_timeout: 30 * SECOND }
    }
}

} // verus!
