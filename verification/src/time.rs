//! Points in time and spans between them, as whole nanoseconds.

use vstd::prelude::*;

verus! {

pub const NANOS_PER_SEC: u64 = 1_000_000_000;

/// A wall-clock reading: nanoseconds since the Unix epoch, negative before it.
#[derive(Debug, Clone, Copy, PartialEq, Eq, Structural)]
pub struct Timestamp {
    pub nanos: i128,
}

impl Timestamp {
    /// `secs` whole seconds after the epoch.
    pub fn from_secs(secs: u64) -> (r: Timestamp)
        ensures
            r.nanos == secs as int * NANOS_PER_SEC as int,
    {
        Timestamp { nanos: (secs as i128) * (NANOS_PER_SEC as i128) }
    }

    /// The later of the two readings.
    pub fn later(self, other: Timestamp) -> (r: Timestamp)
        ensures
            r == if self.nanos >= other.nanos {
                self
            } else {
                other
            },
    {
        if self.nanos >= other.nanos {
            self
        } else {
            other
        }
    }
}

/// A span of time: whole seconds, and nanoseconds on top of them.
#[derive(Debug, Clone, Copy, PartialEq, Eq, Structural)]
pub struct Duration {
    pub secs: u64,
    pub nanos: u32,
}

impl Duration {
    /// The span in nanoseconds.
    pub open spec fn total_nanos(self) -> nat {
        self.secs as nat * NANOS_PER_SEC as nat + self.nanos as nat
    }

    /// A span of `secs` whole seconds.
    pub open spec fn of_secs(secs: nat) -> Duration {
        Duration { secs: secs as u64, nanos: 0 }
    }

    /// A span of `secs` whole seconds.
    pub fn from_secs(secs: u64) -> (r: Duration)
        ensures
            r == Duration::of_secs(secs as nat),
    {
        Duration { secs, nanos: 0 }
    }

    /// The span in nanoseconds.
    pub fn as_nanos(self) -> (r: u128)
        ensures
            r == self.total_nanos(),
    {
        let whole: u128 = (self.secs as u128) * 1_000_000_000;
        whole + (self.nanos as u128)
    }
}

/// A reading of a monotonic clock: nanoseconds since some fixed moment.
#[derive(Debug, Clone, Copy, PartialEq, Eq, Structural)]
pub struct Instant {
    pub nanos: u128,
}

impl Instant {
    /// How many nanoseconds after `earlier` this is; none when it is not after
    /// it.
    pub open spec fn since(self, earlier: Instant) -> nat {
        if self.nanos >= earlier.nanos {
            (self.nanos - earlier.nanos) as nat
        } else {
            0
        }
    }

    /// How many nanoseconds after `earlier` this is; none when it is not after
    /// it.
    pub fn nanos_since(self, earlier: Instant) -> (r: u128)
        ensures
            r == self.since(earlier),
    {
        if self.nanos >= earlier.nanos {
            self.nanos - earlier.nanos
        } else {
            0
        }
    }
}

/// Time runs in nanoseconds: an instant is as long after an earlier one as it
/// is later, and never after a later one; a span is its seconds and the rest.
pub proof fn law_spans_are_counted_in_nanoseconds(now: Instant, earlier: Instant, span: Duration)
    ensures
        now.nanos >= earlier.nanos ==> earlier.nanos + now.since(earlier) == now.nanos,
        now.nanos <= earlier.nanos ==> now.since(earlier) == 0,
        span.total_nanos() == span.secs * 1_000_000_000 + span.nanos,
        Duration::of_secs(span.secs as nat).secs == span.secs,
        Duration::of_secs(span.secs as nat).nanos == 0,
{
}

}
