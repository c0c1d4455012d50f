//! A fail-fast limiter on how often a venue may be called.
//!
//! Times are whole nanoseconds on the limiter's own clock, which starts when
//! the limiter is made.

use vstd::prelude::*;

verus! {

/// `tokio::time::Instant`, a reading of the monotonic clock; opaque here.
#[verifier::external_type_specification]
#[verifier::external_body]
pub struct ExInstant(tokio::time::Instant);

/// Calls `tokio::time::Instant::now`. Nothing is claimed of the reading.
#[verifier::external_body]
fn clock_now() -> (t: tokio::time::Instant) {
    tokio::time::Instant::now()
}

/// Calls `tokio::time::Instant::elapsed` on `origin` and reads the duration
/// in whole nanoseconds with `Duration::as_nanos`. Nothing is claimed of the
/// number: it depends on when the call is made.
#[verifier::external_body]
fn nanos_since(origin: &tokio::time::Instant) -> (n: u128) {
    origin.elapsed().as_nanos()
}

/// The limiter refused a call: it may be tried again after `wait_nanos`.
#[derive(Clone, Copy, Debug, PartialEq, Eq, Structural)]
pub struct RateLimitExceeded {
    pub wait_nanos: u128,
}

/// What a limiter remembers: when it last accepted a call, if ever, and the
/// least time between two accepted calls.
pub struct LimiterState {
    pub last_accepted: Option<u64>,
    pub interval: u64,
}

/// The earliest time at which the next call is accepted.
pub open spec fn next_allowed(state: LimiterState) -> nat {
    match state.last_accepted {
        None => 0,
        Some(last) => last as nat + state.interval as nat,
    }
}

/// What a call at time `now` does to a limiter in state `before`: it is
/// accepted and stamped when `now` has reached `next_allowed`, and otherwise
/// refused with the time still to wait, the limiter unchanged.
pub open spec fn acquire_outcome(
    before: LimiterState,
    now: u64,
    after: LimiterState,
    r: Result<(), RateLimitExceeded>,
) -> bool {
    if next_allowed(before) <= now {
        &&& r is Ok
        &&& after == (LimiterState { last_accepted: Some(now), interval: before.interval })
    } else {
        &&& r is Err
        &&& r->Err_0.wait_nanos == next_allowed(before) - now
        &&& after == before
    }
}

/// One venue's limiter. A caller that shares it puts it behind a lock:
/// `try_acquire` takes it exclusively, so check and stamp are one step.
pub struct RateLimiter {
    origin: tokio::time::Instant,
    last_accepted: Option<u64>,
    interval: u64,
}

impl View for RateLimiter {
    type V = LimiterState;

    closed spec fn view(&self) -> LimiterState {
        LimiterState { last_accepted: self.last_accepted, interval: self.interval }
    }
}

impl RateLimiter {
    /// A limiter that has accepted no call yet and then accepts at most one
    /// call per `interval_nanos`.
    pub fn new(interval_nanos: u64) -> (limiter: RateLimiter)
        ensures
            limiter@ == (LimiterState { last_accepted: None, interval: interval_nanos }),
    {
        RateLimiter { origin: clock_now(), last_accepted: None, interval: interval_nanos }
    }

    /// The least time between two accepted calls.
    pub fn interval_nanos(&self) -> (n: u64)
        ensures
            n == self@.interval,
    {
        self.interval
    }

    /// When the last call was accepted, if one was.
    pub fn last_accepted_nanos(&self) -> (t: Option<u64>)
        ensures
            t == self@.last_accepted,
    {
        self.last_accepted
    }

    /// Decides a call made at time `now`, without waiting: accepts and stamps
    /// it, or refuses it with the time still to wait.
    pub fn try_acquire_at(&mut self, now: u64) -> (r: Result<(), RateLimitExceeded>)
        ensures
            acquire_outcome(old(self)@, now, final(self)@, r),
    {
        match self.last_accepted {
            None => {
                self.last_accepted = Some(now);
                Ok(())
            },
            Some(last) => {
                let next: u128 = last as u128 + self.interval as u128;
                if next <= now as u128 {
                    self.last_accepted = Some(now);
                    Ok(())
                } else {
                    Err(RateLimitExceeded { wait_nanos: next - now as u128 })
                }
            },
        }
    }

    /// Decides a call made now, by the limiter's clock, without waiting. A
    /// reading beyond the range of `u64` counts as the largest `u64`.
    pub fn try_acquire(&mut self) -> (r: Result<(), RateLimitExceeded>)
        ensures
            exists|now: u64| acquire_outcome(old(self)@, now, final(self)@, r),
    {
        let elapsed: u128 = nanos_since(&self.origin);
        let now: u64 = if elapsed > u64::MAX as u128 {
            u64::MAX
        } else {
            elapsed as u64
        };
        let r = self.try_acquire_at(now);
        proof {
            assert(acquire_outcome(old(self)@, now, self@, r));
        }
        r
    }
}

/// A limiter that has accepted no call yet accepts the first, whenever it
/// comes.
pub proof fn lemma_first_call_accepted(
    before: LimiterState,
    now: u64,
    after: LimiterState,
    r: Result<(), RateLimitExceeded>,
)
    requires
        before.last_accepted is None,
        acquire_outcome(before, now, after, r),
    ensures
        r is Ok,
        after.last_accepted == Some(now),
{
}

/// A call that follows an accepted one by less than the interval is refused,
/// with a wait that is positive and no longer than the interval, and leaves
/// the limiter as it was.
pub proof fn lemma_call_within_interval_refused(
    start: LimiterState,
    first_at: u64,
    between: LimiterState,
    first: Result<(), RateLimitExceeded>,
    second_at: u64,
    end: LimiterState,
    second: Result<(), RateLimitExceeded>,
)
    requires
        acquire_outcome(start, first_at, between, first),
        acquire_outcome(between, second_at, end, second),
        first is Ok,
        first_at <= second_at,
        second_at - first_at < start.interval,
    ensures
        second is Err,
        0 < second->Err_0.wait_nanos <= start.interval,
        second->Err_0.wait_nanos == start.interval - (second_at - first_at),
        end == between,
{
}

/// A call that follows an accepted one by the interval or more is accepted
/// too.
pub proof fn lemma_spaced_calls_accepted(
    start: LimiterState,
    first_at: u64,
    between: LimiterState,
    first: Result<(), RateLimitExceeded>,
    second_at: u64,
    end: LimiterState,
    second: Result<(), RateLimitExceeded>,
)
    requires
        acquire_outcome(start, first_at, between, first),
        acquire_outcome(between, second_at, end, second),
        first is Ok,
        first_at <= second_at,
        second_at - first_at >= start.interval,
    ensures
        second is Ok,
        end.last_accepted == Some(second_at),
{
}

} // verus!
