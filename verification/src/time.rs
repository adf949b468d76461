//! Spans and points of time, in whole nanoseconds.
use vstd::prelude::*;

verus! {

pub const NANOS_PER_SEC: u128 = 1_000_000_000;

pub const NANOS_PER_MILLI: u128 = 1_000_000;

/// A span of time.
#[derive(Clone, Copy, PartialEq, Eq, Structural, Debug)]
pub struct Duration {
    pub nanos: u128,
}

impl Duration {
    pub open spec fn of_secs(secs: u64) -> Duration {
        Duration { nanos: (secs * NANOS_PER_SEC) as u128 }
    }

    pub fn from_secs(secs: u64) -> (d: Duration)
        ensures
            d == Duration::of_secs(secs),
            d.nanos == secs * 1_000_000_000,
    {
        assert(secs * NANOS_PER_SEC <= u128::MAX) by (nonlinear_arith)
            requires
                secs <= u64::MAX,
                NANOS_PER_SEC == 1_000_000_000,
        ;
        Duration { nanos: secs as u128 * NANOS_PER_SEC }
    }

    pub fn from_millis(millis: u64) -> (d: Duration)
        ensures
            d.nanos == millis * 1_000_000,
    {
        assert(millis * NANOS_PER_MILLI <= u128::MAX) by (nonlinear_arith)
            requires
                millis <= u64::MAX,
                NANOS_PER_MILLI == 1_000_000,
        ;
        Duration { nanos: millis as u128 * NANOS_PER_MILLI }
    }

    pub fn is_zero(&self) -> (b: bool)
        ensures
            b == (self.nanos == 0),
    {
        self.nanos == 0
    }

    /// Half of it, rounded down.
    pub fn half(&self) -> (d: Duration)
        ensures
            d.nanos == self.nanos / 2,
    {
        Duration { nanos: self.nanos / 2 }
    }
}

/// A point of time on a clock that never runs backwards.
#[derive(Clone, Copy, PartialEq, Eq, Structural, Debug)]
pub struct Instant {
    pub nanos: u128,
}

impl Instant {
    /// How long `earlier` is past at `self`: no time at all where it is not
    /// past.
    pub open spec fn since(self, earlier: Instant) -> nat {
        if self.nanos >= earlier.nanos {
            (self.nanos - earlier.nanos) as nat
        } else {
            0
        }
    }

    pub fn duration_since(&self, earlier: Instant) -> (d: Duration)
        ensures
            d.nanos == self.since(earlier),
    {
        if self.nanos >= earlier.nanos {
            Duration { nanos: self.nanos - earlier.nanos }
        } else {
            Duration { nanos: 0 }
        }
    }
}

/// A second is a thousand million nanoseconds, however many there are.
pub proof fn law_seconds_in_nanoseconds(secs: u64)
    ensures
        Duration::of_secs(secs).nanos == secs * 1_000_000_000,
{
    assert(0 <= secs * NANOS_PER_SEC <= u128::MAX) by (nonlinear_arith)
        requires
            secs <= u64::MAX,
            NANOS_PER_SEC == 1_000_000_000,
    ;
}

/// Time that passes adds up: from one point to a later one and on to a third
/// takes as long as from the first to the third, and nothing has passed at a
/// point that is not later.
pub proof fn law_time_adds_up(a: Instant, b: Instant, c: Instant)
    ensures
        a.nanos <= b.nanos <= c.nanos ==> c.since(a) == c.since(b) + b.since(a),
        a.nanos <= b.nanos ==> a.nanos + b.since(a) == b.nanos,
        b.nanos <= a.nanos ==> b.since(a) == 0,
{
}

} // verus!
