//! Points in time and spans of time, in nanoseconds.

use vstd::prelude::*;

verus! {

/// A span of time.
#[derive(Clone, Copy, Debug)]
pub struct Interval {
    pub secs: u64,
    pub nanos: u32,
}

impl View for Interval {
    type V = nat;

    /// The nanoseconds of the span.
    open spec fn view(&self) -> nat {
        self.secs as nat * 1_000_000_000 + self.nanos as nat
    }
}

impl Interval {
    /// A span of whole seconds.
    pub fn from_secs(secs: u64) -> (r: Interval)
        ensures
            r.secs == secs,
            r.nanos == 0,
    {
        Interval { secs, nanos: 0 }
    }

    /// The nanoseconds of the span.
    pub fn as_nanos(&self) -> (n: u128)
        ensures
            n == self@,
    {
        self.secs as u128 * 1_000_000_000 + self.nanos as u128
    }
}

/// A point in time: the nanoseconds that a monotonic clock has counted.
#[derive(Clone, Copy, Debug)]
pub struct Timestamp {
    pub nanos: u128,
}

/// The nanoseconds from `earlier` to `now`, none if `earlier` lies ahead.
pub open spec fn since(now: Timestamp, earlier: Timestamp) -> nat {
    if now.nanos >= earlier.nanos {
        (now.nanos - earlier.nanos) as nat
    } else {
        0
    }
}

impl Timestamp {
    /// The point of time at which the clock had counted `nanos`.
    pub fn from_nanos(nanos: u128) -> (r: Timestamp)
        ensures
            r.nanos == nanos,
    {
        Timestamp { nanos }
    }

    /// The nanoseconds since `earlier`.
    pub fn duration_since(&self, earlier: Timestamp) -> (n: u128)
        ensures
            n == since(*self, earlier),
    {
        if self.nanos >= earlier.nanos {
            self.nanos - earlier.nanos
        } else {
            0
        }
    }
}

/// Whether at least `cooldown` has gone by since `last`, if there was a last
/// time.
pub open spec fn cooled_down(
    last: Option<Timestamp>,
    cooldown: Interval,
    now: Timestamp,
) -> bool {
    match last {
        Some(t) => since(now, t) >= cooldown@,
        None => true,
    }
}

/// Whether at least `cooldown` has gone by since `last`.
pub fn cooldown_elapsed(last: Option<Timestamp>, cooldown: Interval, now: Timestamp) -> (r: bool)
    ensures
        r == cooled_down(last, cooldown, now),
{
    match last {
        Some(t) => now.duration_since(t) >= cooldown.as_nanos(),
        None => true,
    }
}

} // verus!
