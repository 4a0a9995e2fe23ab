//! Spans of time, to the nanosecond.

use vstd::prelude::*;

verus! {

/// A span of time: whole seconds, and nanoseconds on top of them.
#[derive(Clone, Copy, Debug, PartialEq, Eq, Structural)]
pub struct Duration {
    pub secs: u64,
    pub nanos: u32,
}

/// The span of `millis` milliseconds.
pub open spec fn millis_span(millis: u64) -> Duration {
    Duration { secs: millis / 1000, nanos: ((millis % 1000) * 1_000_000) as u32 }
}

impl Duration {
    /// The length of the span in nanoseconds.
    pub open spec fn length(self) -> int {
        self.secs * 1_000_000_000 + self.nanos
    }

    /// The whole milliseconds in the span.
    pub open spec fn whole_millis(self) -> int {
        self.length() / 1_000_000
    }

    /// The span of `secs` seconds and `nanos` nanoseconds; full seconds among the
    /// nanoseconds are carried over.
    pub fn new(secs: u64, nanos: u32) -> (r: Self)
        requires
            secs + nanos / 1_000_000_000 <= u64::MAX,
        ensures
            r.length() == secs * 1_000_000_000 + nanos,
            r.nanos < 1_000_000_000,
    {
        Duration { secs: secs + (nanos / 1_000_000_000) as u64, nanos: nanos % 1_000_000_000 }
    }

    /// No time at all.
    pub fn zero() -> (r: Self)
        ensures
            r == (Duration { secs: 0, nanos: 0 }),
    {
        Duration { secs: 0, nanos: 0 }
    }

    pub fn from_secs(secs: u64) -> (r: Self)
        ensures
            r == (Duration { secs, nanos: 0 }),
    {
        Duration { secs, nanos: 0 }
    }

    pub fn from_millis(millis: u64) -> (r: Self)
        ensures
            r == millis_span(millis),
            r.length() == millis * 1_000_000,
    {
        Duration { secs: millis / 1000, nanos: ((millis % 1000) * 1_000_000) as u32 }
    }

    /// The length in nanoseconds.
    pub fn as_nanos(&self) -> (r: u128)
        ensures
            r == self.length(),
    {
        self.secs as u128 * 1_000_000_000 + self.nanos as u128
    }

    /// The whole milliseconds; what is left of the last one is dropped.
    pub fn as_millis(&self) -> (r: u128)
        ensures
            r == self.whole_millis(),
    {
        self.as_nanos() / 1_000_000
    }
}

} // verus!
