//! Admission control for incoming connections.
use vstd::prelude::*;

verus! {

/// Counters of a connection pool: connections open now, admitted in total,
/// refused in total, and the limit (0 for none).
pub struct ConnectionPool {
    active: usize,
    total: u64,
    rejected: u64,
    max_connections: usize,
}

/// A snapshot of a pool's counters.
#[derive(Debug, Clone, Copy, PartialEq, Eq, Structural)]
pub struct PoolStats {
    pub active_connections: usize,
    pub total_connections: u64,
    pub rejected_connections: u64,
    pub max_connections: usize,
}

/// `x + 1`, wrapping to 0 past the maximum.
pub open spec fn inc_usize(x: usize) -> usize {
    if x == usize::MAX { 0 } else { (x + 1) as usize }
}

/// `x + 1`, wrapping to 0 past the maximum.
pub open spec fn inc_u64(x: u64) -> u64 {
    if x == u64::MAX { 0 } else { (x + 1) as u64 }
}

/// `x - 1`, wrapping to the maximum below 0.
pub open spec fn dec_usize(x: usize) -> usize {
    if x == 0 { usize::MAX } else { (x - 1) as usize }
}

fn wrapping_inc_usize(x: usize) -> (r: usize)
    ensures
        r == inc_usize(x),
{
    if x == usize::MAX { 0 } else { x + 1 }
}

fn wrapping_inc_u64(x: u64) -> (r: u64)
    ensures
        r == inc_u64(x),
{
    if x == u64::MAX { 0 } else { x + 1 }
}

/// The counters as a tuple `(active, total, rejected, max)`.
pub type PoolCounters = (usize, u64, u64, usize);

/// One admission attempt: without a limit every connection is admitted; with one,
/// a connection is admitted while fewer than the limit are open and refused
/// otherwise. Counters that only grow wrap around like the atomic counters they
/// stand for. Returns the new counters and whether the connection was admitted.
pub open spec fn acquire_step(c: PoolCounters) -> (PoolCounters, bool) {
    let (active, total, rejected, max) = c;
    if max == 0 {
        ((inc_usize(active), inc_u64(total), rejected, max), true)
    } else if active >= max {
        ((active, total, inc_u64(rejected), max), false)
    } else {
        (((active + 1) as usize, inc_u64(total), rejected, max), true)
    }
}

/// Closing a connection: one fewer open (wrapping like an atomic decrement).
pub open spec fn release_step(c: PoolCounters) -> PoolCounters {
    (dec_usize(c.0), c.1, c.2, c.3)
}

/// With a limit, admission never takes the open count above it.
pub proof fn lemma_admission_respects_limit(c: PoolCounters)
    requires
        c.3 > 0,
        c.0 <= c.3,
    ensures
        acquire_step(c).0.0 <= c.3,
{
}

/// Releasing an admitted connection restores the open count.
pub proof fn lemma_release_undoes_admission(c: PoolCounters)
    requires
        acquire_step(c).1,
    ensures
        release_step(acquire_step(c).0).0 == c.0,
{
}

/// Every attempt is counted exactly once, as an admission or a refusal.
pub proof fn lemma_attempt_counted_once(c: PoolCounters)
    requires
        c.1 < u64::MAX,
        c.2 < u64::MAX,
    ensures
        acquire_step(c).0.1 + acquire_step(c).0.2 == c.1 + c.2 + 1,
        acquire_step(c).1 <==> acquire_step(c).0.1 == c.1 + 1,
{
}

/// A call on a pool, one at a time.
pub enum PoolCall {
    Acquire,
    Release,
}

/// The counters after a pool made with limit `max` has served `calls` in
/// order, with the number of admissions, refusals and releases among them.
pub open spec fn run_calls(max: usize, calls: Seq<PoolCall>) -> (PoolCounters, nat, nat, nat)
    decreases calls.len(),
{
    if calls.len() == 0 {
        ((0usize, 0u64, 0u64, max), 0, 0, 0)
    } else {
        let (c, admitted, refused, released) = run_calls(max, calls.drop_last());
        match calls.last() {
            PoolCall::Acquire => {
                let (c2, ok) = acquire_step(c);
                if ok {
                    (c2, admitted + 1, refused, released)
                } else {
                    (c2, admitted, refused + 1, released)
                }
            },
            PoolCall::Release => (release_step(c), admitted, refused, released + 1),
        }
    }
}

/// Whether every release in `calls` closes an admitted connection not yet released.
pub open spec fn releases_matched(max: usize, calls: Seq<PoolCall>) -> bool
    decreases calls.len(),
{
    if calls.len() == 0 {
        true
    } else {
        let before = run_calls(max, calls.drop_last());
        releases_matched(max, calls.drop_last()) && (calls.last() is Release ==> before.3 < before.1)
    }
}

/// After any run of calls in which each release closes an admitted
/// connection, the counters read: open = admitted - released, total =
/// admitted, refused = refusals, and the limit unchanged; with a limit, the
/// open count never exceeds it. (The run is shorter than the counters' range.)
pub proof fn lemma_pool_counts(max: usize, calls: Seq<PoolCall>)
    requires
        releases_matched(max, calls),
        calls.len() < u64::MAX,
        calls.len() < usize::MAX,
    ensures
        ({
            let (c, admitted, refused, released) = run_calls(max, calls);
            &&& admitted + refused + released == calls.len()
            &&& released <= admitted
            &&& c.0 == admitted - released
            &&& c.1 == admitted
            &&& c.2 == refused
            &&& c.3 == max
            &&& (max > 0 ==> c.0 <= max)
        }),
    decreases calls.len(),
{
    if calls.len() > 0 {
        lemma_pool_counts(max, calls.drop_last());
    }
}

impl ConnectionPool {
    pub closed spec fn counters(self) -> PoolCounters {
        (self.active, self.total, self.rejected, self.max_connections)
    }

    /// An empty pool with the given limit (0 for none).
    pub fn new(max_connections: usize) -> (r: ConnectionPool)
        ensures
            r.counters() == (0usize, 0u64, 0u64, max_connections),
    {
        ConnectionPool { active: 0, total: 0, rejected: 0, max_connections }
    }

    /// Tries to admit a connection.
    pub fn try_acquire(&mut self) -> (r: bool)
        ensures
            (final(self).counters(), r) == acquire_step(old(self).counters()),
    {
        if self.max_connections == 0 {
            self.active = wrapping_inc_usize(self.active);
            self.total = wrapping_inc_u64(self.total);
            return true;
        }
        if self.active >= self.max_connections {
            self.rejected = wrapping_inc_u64(self.rejected);
            return false;
        }
        self.active = self.active + 1;
        self.total = wrapping_inc_u64(self.total);
        true
    }

    /// Records that an admitted connection has closed.
    pub fn release(&mut self)
        ensures
            final(self).counters() == release_step(old(self).counters()),
    {
        self.active = if self.active == 0 { usize::MAX } else { self.active - 1 };
    }

    /// The current counters.
    pub fn stats(&self) -> (r: PoolStats)
        ensures
            r.active_connections == self.counters().0,
            r.total_connections == self.counters().1,
            r.rejected_connections == self.counters().2,
            r.max_connections == self.counters().3,
    {
        PoolStats {
            active_connections: self.active,
            total_connections: self.total,
            rejected_connections: self.rejected,
            max_connections: self.max_connections,
        }
    }
}

} // verus!
