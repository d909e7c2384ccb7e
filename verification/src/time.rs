//! Plain-value stand-ins for spans of time and points in time.
use vstd::prelude::*;

verus! {

/// Nanoseconds in a second.
pub const NANOS_PER_SEC: u32 = 1_000_000_000;

/// A span of time: whole seconds and the nanoseconds beyond them, as
/// `std::time::Duration` holds it.
#[derive(Clone, Copy, Debug, PartialEq, Eq, Structural)]
pub struct TimeSpan {
    pub secs: u64,
    pub nanos: u32,
}

impl TimeSpan {
    /// The nanosecond part is below one second.
    pub open spec fn wf(self) -> bool {
        self.nanos < NANOS_PER_SEC
    }

    /// The whole span in nanoseconds.
    pub open spec fn total_nanos(self) -> int {
        self.secs * 1_000_000_000 + self.nanos
    }

    /// The whole span in milliseconds, rounded down.
    pub open spec fn millis(self) -> int {
        self.secs * 1000 + self.nanos / 1_000_000
    }

    /// The empty span.
    pub fn zero() -> (r: TimeSpan)
        ensures
            r == (TimeSpan { secs: 0, nanos: 0 }),
    {
        TimeSpan { secs: 0, nanos: 0 }
    }

    /// Builds a span from milliseconds.
    pub fn from_millis(ms: u64) -> (r: TimeSpan)
        ensures
            r.wf(),
            r.total_nanos() == ms * 1_000_000,
            r.millis() == ms,
    {
        let secs = ms / 1000;
        let rest = (ms % 1000) as u32;
        TimeSpan { secs, nanos: rest * 1_000_000 }
    }

    /// The span in whole milliseconds.
    pub fn as_millis(&self) -> (r: u128)
        ensures
            r == self.millis(),
    {
        (self.secs as u128) * 1000 + (self.nanos / 1_000_000) as u128
    }

    /// Whether `self + other` fits: the seconds, with the carry out of the
    /// nanoseconds, stay within `u64`.
    pub open spec fn sum_fits(self, other: TimeSpan) -> bool {
        self.secs + other.secs + (if self.nanos + other.nanos >= NANOS_PER_SEC {
            1int
        } else {
            0int
        }) <= u64::MAX
    }

    /// The sum of two spans.
    pub fn add(self, other: TimeSpan) -> (r: TimeSpan)
        requires
            self.wf(),
            other.wf(),
            self.sum_fits(other),
        ensures
            r.wf(),
            r.total_nanos() == self.total_nanos() + other.total_nanos(),
    {
        let n: u32 = self.nanos + other.nanos;
        if n >= NANOS_PER_SEC {
            TimeSpan { secs: self.secs + other.secs + 1, nanos: n - NANOS_PER_SEC }
        } else {
            TimeSpan { secs: self.secs + other.secs, nanos: n }
        }
    }
}

/// A point in time in UTC: seconds since the Unix epoch and the nanoseconds
/// beyond them. The nanoseconds reach past one second only on a leap second.
#[derive(Clone, Copy, Debug, PartialEq, Eq, Structural)]
pub struct Timestamp {
    pub secs: i64,
    pub nanos: u32,
}

impl Timestamp {
    /// The integers whose lexicographic order is the order of points in time.
    pub open spec fn key(self) -> Seq<int> {
        seq![self.secs as int, self.nanos as int]
    }
}

} // verus!
