//! Points in time and spans of time, to the nanosecond.

use vstd::prelude::*;

verus! {

/// A span of time.
#[derive(Debug, Clone, Copy, PartialEq, Eq, PartialOrd, Ord, Structural)]
pub struct Duration {
    pub nanos: u128,
}

/// A point in time, counted from the Unix epoch.
#[derive(Debug, Clone, Copy, PartialEq, Eq, PartialOrd, Ord, Structural)]
pub struct Timestamp {
    pub nanos: i128,
}

impl Duration {
    /// A 64-bit count of seconds and less than a second more.
    pub open spec fn valid(self) -> bool {
        self.nanos < 0x1_0000_0000_0000_0000 * 1_000_000_000
    }

    /// The whole seconds of the span.
    pub open spec fn secs(self) -> nat {
        self.nanos as nat / 1_000_000_000
    }

    /// A span of whole seconds.
    pub fn from_secs(secs: u64) -> (r: Self)
        ensures
            r.nanos == secs * 1_000_000_000,
            r.secs() == secs,
            r.valid(),
    {
        Duration { nanos: (secs as u128) * 1_000_000_000 }
    }

    /// The whole seconds of the span.
    pub fn as_secs(self) -> (r: u64)
        requires
            self.valid(),
        ensures
            r == self.secs(),
    {
        (self.nanos / 1_000_000_000) as u64
    }
}

impl Timestamp {
    /// A signed 64-bit count of seconds and less than a second more.
    pub open spec fn valid(self) -> bool {
        -0x8000_0000_0000_0000 * 1_000_000_000 <= self.nanos < 0x8000_0000_0000_0000 * 1_000_000_000
    }

    /// The point in time a number of seconds from the Unix epoch.
    pub fn from_unix(secs: i64) -> (r: Self)
        ensures
            r.nanos == secs * 1_000_000_000,
            r.valid(),
    {
        Timestamp { nanos: (secs as i128) * 1_000_000_000 }
    }

    /// The whole seconds since the Unix epoch, rounded down.
    pub fn unix(self) -> (r: i64)
        requires
            self.valid(),
        ensures
            r == self.nanos as int / 1_000_000_000,
    {
        if self.nanos >= 0 {
            (self.nanos / 1_000_000_000) as i64
        } else {
            let m: i128 = -(self.nanos + 1);
            (-(m / 1_000_000_000) - 1) as i64
        }
    }

    /// The point in time a span later.
    pub fn plus(self, d: Duration) -> (r: Self)
        requires
            self.valid(),
            d.valid(),
        ensures
            r.nanos == self.nanos + d.nanos,
    {
        Timestamp { nanos: self.nanos + (d.nanos as i128) }
    }
}

} // verus!
