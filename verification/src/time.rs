//! Spans of time and points in time, to the nanosecond.

use vstd::prelude::*;

verus! {

/// The nanoseconds in a second.
pub const NANOS_PER_SECOND: u32 = 1_000_000_000;

/// A span of time.
#[derive(Clone, Copy, Debug, PartialEq, Eq, Structural)]
pub struct Duration {
    secs: u64,
    nanos: u32,
}

impl Duration {
    #[verifier::type_invariant]
    spec fn well_formed(self) -> bool {
        self.nanos < NANOS_PER_SECOND
    }

    /// The whole span in nanoseconds.
    pub closed spec fn as_nanos(self) -> nat {
        (self.secs * NANOS_PER_SECOND + self.nanos) as nat
    }

    /// The span of so many seconds and nanoseconds.
    pub fn new(secs: u64, nanos: u32) -> (span: Duration)
        requires
            secs + nanos / NANOS_PER_SECOND <= u64::MAX,
        ensures
            span.as_nanos() == secs * NANOS_PER_SECOND + nanos,
    {
        Duration {
            secs: secs + (nanos / NANOS_PER_SECOND) as u64,
            nanos: nanos % NANOS_PER_SECOND,
        }
    }

    /// The span of so many seconds.
    pub fn from_secs(secs: u64) -> (span: Duration)
        ensures
            span.as_nanos() == secs * NANOS_PER_SECOND,
    {
        Duration { secs, nanos: 0 }
    }

    /// The span of no length.
    pub fn zero() -> (span: Duration)
        ensures
            span.as_nanos() == 0,
    {
        Duration { secs: 0, nanos: 0 }
    }

    /// The whole seconds of the span.
    pub fn as_secs(self) -> (secs: u64)
        ensures
            secs == self.as_nanos() / NANOS_PER_SECOND as nat,
    {
        proof {
            use_type_invariant(&self);
        }
        self.secs
    }

    /// The nanoseconds beyond the whole seconds.
    pub fn subsec_nanos(self) -> (nanos: u32)
        ensures
            nanos == self.as_nanos() % NANOS_PER_SECOND as nat,
            nanos < NANOS_PER_SECOND,
    {
        proof {
            use_type_invariant(&self);
        }
        self.nanos
    }

    /// Whether the span has no length.
    pub fn is_zero(self) -> (zero: bool)
        ensures
            zero == (self.as_nanos() == 0),
    {
        self.secs == 0 && self.nanos == 0
    }

    /// Whether the span is at least so many seconds long.
    pub fn reaches_secs(self, secs: u64) -> (reaches: bool)
        ensures
            reaches == (self.as_nanos() >= secs * NANOS_PER_SECOND),
    {
        proof {
            use_type_invariant(&self);
        }
        self.secs >= secs
    }

    /// How much longer the span is than the other one; nothing if it is not.
    pub fn saturating_sub(self, other: Duration) -> (span: Duration)
        ensures
            span.as_nanos() == if self.as_nanos() >= other.as_nanos() {
                (self.as_nanos() - other.as_nanos()) as nat
            } else {
                0
            },
    {
        proof {
            use_type_invariant(&self);
            use_type_invariant(&other);
        }
        if self.secs < other.secs || (self.secs == other.secs && self.nanos < other.nanos) {
            Duration { secs: 0, nanos: 0 }
        } else if self.nanos < other.nanos {
            Duration {
                secs: self.secs - other.secs - 1,
                nanos: NANOS_PER_SECOND - other.nanos + self.nanos,
            }
        } else {
            Duration { secs: self.secs - other.secs, nanos: self.nanos - other.nanos }
        }
    }
}

/// A point in time, as the time since an origin that all points share.
#[derive(Clone, Copy, Debug, PartialEq, Eq, Structural)]
pub struct Instant {
    pub since_origin: Duration,
}

impl Instant {
    /// The nanoseconds since the origin.
    pub open spec fn nanos(self) -> nat {
        self.since_origin.as_nanos()
    }

    /// The nanoseconds from an earlier point to this one; none if the other
    /// point is later.
    pub open spec fn nanos_since(self, earlier: Instant) -> nat {
        if self.nanos() >= earlier.nanos() {
            (self.nanos() - earlier.nanos()) as nat
        } else {
            0
        }
    }

    /// The time from an earlier point to this one; none if the other point is
    /// later.
    pub fn duration_since(self, earlier: Instant) -> (span: Duration)
        ensures
            span.as_nanos() == self.nanos_since(earlier),
    {
        self.since_origin.saturating_sub(earlier.since_origin)
    }
}

/// The whole seconds of the time since the Unix epoch; zero where there is none.
pub open spec fn timestamp_of(since_epoch: Option<Duration>) -> nat {
    match since_epoch {
        Some(span) => span.as_nanos() / NANOS_PER_SECOND as nat,
        None => 0,
    }
}

/// The seconds since the Unix epoch, given the time since then; zero for a
/// clock that is set before the epoch.
pub fn unix_timestamp(since_epoch: Option<Duration>) -> (seconds: u64)
    ensures
        seconds == timestamp_of(since_epoch),
{
    match since_epoch {
        Some(span) => span.as_secs(),
        None => 0,
    }
}

} // verus!
