//! Spans of time.

use vstd::prelude::*;

verus! {

/// A span of time in nanoseconds.
#[derive(Debug, Clone, Copy, PartialEq, Eq, Structural)]
pub struct Timeout {
    pub nanos: u128,
}

/// How many nanoseconds a number of milliseconds has.
pub open spec fn millis(ms: u64) -> int {
    ms * 1_000_000
}

impl Timeout {
    /// This many milliseconds.
    pub fn from_millis(ms: u64) -> (r: Self)
        ensures
            r.nanos == millis(ms),
    {
        Timeout { nanos: ms as u128 * 1_000_000 }
    }

    /// The longer of two spans.
    pub fn longer(self, other: Timeout) -> (r: Self)
        ensures
            r.nanos == if self.nanos < other.nanos {
                other.nanos
            } else {
                self.nanos
            },
    {
        if self.nanos < other.nanos {
            other
        } else {
            self
        }
    }

    /// The shorter of two spans.
    pub fn shorter(self, other: Timeout) -> (r: Self)
        ensures
            r.nanos == if other.nanos < self.nanos {
                other.nanos
            } else {
                self.nanos
            },
    {
        if other.nanos < self.nanos {
            other
        } else {
            self
        }
    }
}

} // verus!
