//! How reaching one peer is going: consecutive failures to connect, the
//! pause before the next attempt, and whether the peer has been reported
//! unreachable. Shared by all the pipes to a peer, so that they agree on when
//! it is unreachable and back off together.
//!
//! Instants are counted in nanoseconds from any fixed origin.
use crate::timings::{ClusterTimings, MAX_DURATION_NANOS};
use crate::wire::MAX_MESSAGE_SIZE;
use vstd::prelude::*;

verus! {

/// How many connection attempts in a row must fail before a peer is reported
/// unreachable.
pub const UNREACHABLE_AFTER: u32 = 3;

/// `2` to the power `e`.
pub open spec fn pow2(e: nat) -> nat
    decreases e,
{
    if e == 0 {
        1
    } else {
        2 * pow2((e - 1) as nat)
    }
}

/// The pause after the `failures`-th failed connection attempt in a row,
/// before jitter: `min` doubled for every failure after the first (at most
/// 16 times, and never past the longest duration there is), and at most
/// `max`.
pub open spec fn backoff_nanos(min: u128, max: u128, failures: u32) -> u128 {
    let exponent: nat = if failures == 0 {
        0
    } else if failures - 1 > 16 {
        16
    } else {
        (failures - 1) as nat
    };
    let doubled = min * pow2(exponent);
    let saturated = if doubled > MAX_DURATION_NANOS { MAX_DURATION_NANOS } else { doubled as u128 };
    if saturated <= max { saturated } else { max }
}

proof fn lemma_pow2_bounds(e: nat)
    ensures
        pow2(e) >= 1,
        e <= 16 ==> pow2(e) <= 65536,
    decreases e,
{
    if e > 0 {
        lemma_pow2_bounds((e - 1) as nat);
    }
    if e <= 16 {
        lemma_pow2_monotone_base(e, 16);
        assert(pow2(16) == 65536) by {
            reveal_with_fuel(pow2, 17);
        }
    }
}

proof fn lemma_pow2_monotone_base(a: nat, b: nat)
    requires
        a <= b,
    ensures
        pow2(a) <= pow2(b),
    decreases b,
{
    if a < b {
        lemma_pow2_monotone_base(a, (b - 1) as nat);
        lemma_pow2_positive((b - 1) as nat);
    }
}

proof fn lemma_pow2_positive(e: nat)
    ensures
        pow2(e) >= 1,
    decreases e,
{
    if e > 0 {
        lemma_pow2_positive((e - 1) as nat);
    }
}


/// `1 << e`, for the exponents backoff uses.
fn shift_pow2(e: u32) -> (r: u128)
    requires
        e <= 16,
    ensures
        r == pow2(e as nat),
{
    let mut r: u128 = 1;
    let mut i: u32 = 0;
    while i < e
        invariant
            i <= e <= 16,
            r == pow2(i as nat),
        decreases e - i,
    {
        proof {
            lemma_pow2_bounds(i as nat);
        }
        r = r * 2;
        i = i + 1;
    }
    r
}

/// How long to wait after the `failures`-th failed connection attempt in a
/// row, before jitter: doubling from `reconnect_backoff_min` up to
/// `reconnect_backoff_max`.
pub fn backoff(timings: &ClusterTimings, failures: u32) -> (r: u128)
    requires
        timings.wf(),
    ensures
        r == backoff_nanos(timings.reconnect_backoff_min, timings.reconnect_backoff_max, failures),
{
    let lowered = failures.saturating_sub(1);
    let exponent = if lowered > 16 {
        16
    } else {
        lowered
    };
    let factor = shift_pow2(exponent);
    proof {
        lemma_pow2_bounds(exponent as nat);
        assert(timings.reconnect_backoff_min * factor <= MAX_DURATION_NANOS * 65536) by (nonlinear_arith)
            requires
                timings.reconnect_backoff_min <= MAX_DURATION_NANOS,
                factor <= 65536,
        ;
    }
    let doubled = timings.reconnect_backoff_min * factor;
    let saturated = if doubled > MAX_DURATION_NANOS {
        MAX_DURATION_NANOS
    } else {
        doubled
    };
    if saturated <= timings.reconnect_backoff_max {
        saturated
    } else {
        timings.reconnect_backoff_max
    }
}

/// The pause never exceeds the configured maximum, and never shrinks as
/// failures go on.
pub proof fn lemma_backoff_grows_to_the_max(min: u128, max: u128, f1: u32, f2: u32)
    requires
        f1 <= f2,
    ensures
        backoff_nanos(min, max, f1) <= max,
        backoff_nanos(min, max, f1) <= backoff_nanos(min, max, f2),
        min <= MAX_DURATION_NANOS ==> backoff_nanos(min, max, 1) == (if min <= max { min } else { max }),
{
    let e1: nat = if f1 == 0 { 0 } else if f1 - 1 > 16 { 16 } else { (f1 - 1) as nat };
    let e2: nat = if f2 == 0 { 0 } else if f2 - 1 > 16 { 16 } else { (f2 - 1) as nat };
    lemma_pow2_monotone_base(e1, e2);
    assert(min * pow2(e1) <= min * pow2(e2)) by (nonlinear_arith)
        requires
            pow2(e1) <= pow2(e2),
    ;
    assert(pow2(0) == 1);
    assert(min * pow2(0) == min);
}

/// How reaching one peer is going.
pub struct Health {
    /// Consecutive failed attempts to connect.
    failures: u32,
    /// When the next attempt may happen.
    retry_at: Option<u128>,
    reported_unreachable: bool,
}

/// How reaching a peer is going, as a value.
pub struct HealthView {
    pub failures: u32,
    pub retry_at: Option<u128>,
    pub reported_unreachable: bool,
}

impl View for Health {
    type V = HealthView;

    closed spec fn view(&self) -> HealthView {
        HealthView {
            failures: self.failures,
            retry_at: self.retry_at,
            reported_unreachable: self.reported_unreachable,
        }
    }
}

/// What becomes of a message for a peer.
#[derive(Debug, Clone, Copy, PartialEq, Eq, Structural)]
pub enum Admission {
    /// Over the size limit: dropped.
    TooLarge,
    /// The peer is being backed off from: dropped.
    BackingOff,
    /// Connect, and send it.
    Send,
}

impl Health {
    /// A peer is reported unreachable exactly once it has failed
    /// [`UNREACHABLE_AFTER`] times in a row.
    pub open spec fn wf(&self) -> bool {
        self@.reported_unreachable <==> self@.failures >= UNREACHABLE_AFTER
    }

    /// A peer with nothing against it.
    pub fn new() -> (r: Health)
        ensures
            r@ == (HealthView { failures: 0, retry_at: None, reported_unreachable: false }),
            r.wf(),
    {
        Health { failures: 0, retry_at: None, reported_unreachable: false }
    }

    /// Whether attempts to connect are paused at time `now`.
    pub fn backing_off(&self, now: u128) -> (r: bool)
        ensures
            r == (self@.retry_at matches Some(at) && now < at),
    {
        match self.retry_at {
            Some(at) => now < at,
            None => false,
        }
    }

    /// Whether the peer has been reported unreachable, and not reported
    /// reachable since.
    pub fn reported_unreachable(&self) -> (r: bool)
        ensures
            r == self@.reported_unreachable,
    {
        self.reported_unreachable
    }

    /// Connecting worked. Returns whether the peer had been reported
    /// unreachable, which is then to be followed by a report that it is
    /// reachable.
    pub fn succeeded(&mut self) -> (r: bool)
        requires
            old(self).wf(),
        ensures
            final(self).wf(),
            r == old(self)@.reported_unreachable,
            final(self)@ == (HealthView { failures: 0, retry_at: None, reported_unreachable: false }),
    {
        self.failures = 0;
        self.retry_at = None;
        let was = self.reported_unreachable;
        self.reported_unreachable = false;
        was
    }

    /// The pause, before jitter, that the next failure to connect calls for:
    /// the one for the failures so far and that one.
    pub fn next_backoff(&self, timings: &ClusterTimings) -> (r: u128)
        requires
            timings.wf(),
        ensures
            r == backoff_nanos(
                timings.reconnect_backoff_min,
                timings.reconnect_backoff_max,
                if self@.failures == u32::MAX { u32::MAX } else { (self@.failures + 1) as u32 },
            ),
    {
        backoff(timings, self.failures.saturating_add(1))
    }

    /// Connecting failed at time `now`, and the next attempt is to wait for
    /// `backoff`, but never longer than `reconnect_backoff_max` of `timings`,
    /// the longest pause between attempts. Returns whether this is what makes
    /// the peer unreachable.
    pub fn failed(&mut self, timings: &ClusterTimings, backoff: u128, now: u128) -> (r: bool)
        requires
            old(self).wf(),
            now + backoff <= u128::MAX,
        ensures
            final(self).wf(),
            final(self)@.failures == (if old(self)@.failures == u32::MAX { u32::MAX } else {
                (old(self)@.failures + 1) as u32
            }),
            final(self)@.retry_at == Some(
                (now + (if backoff <= timings.reconnect_backoff_max {
                    backoff
                } else {
                    timings.reconnect_backoff_max
                })) as u128,
            ),
            r == (!old(self)@.reported_unreachable && final(self)@.failures >= UNREACHABLE_AFTER),
            final(self)@.reported_unreachable == (old(self)@.reported_unreachable || r),
    {
        let pause = if backoff <= timings.reconnect_backoff_max {
            backoff
        } else {
            timings.reconnect_backoff_max
        };
        self.failures = self.failures.saturating_add(1);
        self.retry_at = Some(now + pause);
        let newly_unreachable = self.failures >= UNREACHABLE_AFTER && !self.reported_unreachable;
        self.reported_unreachable = self.reported_unreachable || newly_unreachable;
        newly_unreachable
    }

    /// Whether a pipe to this peer that has been idle keeps going: it does
    /// while the peer is reported unreachable, so that the report is always
    /// followed by a matching one that it is reachable.
    pub fn keeps_idle_lane(&self) -> (r: bool)
        ensures
            r == self@.reported_unreachable,
    {
        self.reported_unreachable
    }

    /// What becomes of a message of `len` bytes for this peer at time `now`.
    pub fn admission(&self, len: usize, now: u128) -> (r: Admission)
        ensures
            r == (if len > MAX_MESSAGE_SIZE {
                Admission::TooLarge
            } else if self@.retry_at matches Some(at) && now < at {
                Admission::BackingOff
            } else {
                Admission::Send
            }),
    {
        if len > MAX_MESSAGE_SIZE {
            Admission::TooLarge
        } else if self.backing_off(now) {
            Admission::BackingOff
        } else {
            Admission::Send
        }
    }
}

/// A peer is reported unreachable once, at its third failure in a row, and
/// not again until it has been reached.
pub proof fn lemma_unreachable_is_reported_once(before: HealthView, after: HealthView, newly: bool)
    requires
        before.reported_unreachable <==> before.failures >= UNREACHABLE_AFTER,
        after.failures == (if before.failures == u32::MAX { u32::MAX } else { (before.failures + 1) as u32 }),
        newly == (!before.reported_unreachable && after.failures >= UNREACHABLE_AFTER),
    ensures
        newly <==> after.failures == UNREACHABLE_AFTER,
        before.reported_unreachable ==> !newly,
{
}

} // verus!
