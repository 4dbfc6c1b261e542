//! Spans of time measured in whole nanoseconds.
use vstd::prelude::*;

verus! {

/// Nanoseconds in one microsecond.
pub const NANOS_PER_MICRO: i64 = 1_000;

/// Nanoseconds in one millisecond.
pub const NANOS_PER_MILLI: i64 = 1_000_000;

/// Nanoseconds in one second.
pub const NANOS_PER_SECOND: i64 = 1_000_000_000;

/// A signed span of time in whole nanoseconds.
///
/// Every timestamp of a session is a `Duration` since the session's epoch.
#[derive(Debug, Clone, Copy, PartialEq, Eq, Structural)]
pub struct Duration {
    pub nanos: i64,
}

impl View for Duration {
    type V = int;

    open spec fn view(&self) -> int {
        self.nanos as int
    }
}

impl Duration {
    /// The empty span.
    pub fn zero() -> (r: Duration)
        ensures
            r@ == 0,
    {
        Duration { nanos: 0 }
    }

    /// The earliest instant this type can hold.
    pub fn earliest() -> (r: Duration)
        ensures
            r@ == i64::MIN,
    {
        Duration { nanos: i64::MIN }
    }

    pub fn nanoseconds(n: i64) -> (r: Duration)
        ensures
            r@ == n,
    {
        Duration { nanos: n }
    }

    pub fn microseconds(us: i64) -> (r: Duration)
        requires
            i64::MIN <= us * NANOS_PER_MICRO <= i64::MAX,
        ensures
            r@ == us * NANOS_PER_MICRO,
    {
        Duration { nanos: us * NANOS_PER_MICRO }
    }

    pub fn milliseconds(ms: i64) -> (r: Duration)
        requires
            i64::MIN <= ms * NANOS_PER_MILLI <= i64::MAX,
        ensures
            r@ == ms * NANOS_PER_MILLI,
    {
        Duration { nanos: ms * NANOS_PER_MILLI }
    }

    pub fn seconds(s: i64) -> (r: Duration)
        requires
            i64::MIN <= s * NANOS_PER_SECOND <= i64::MAX,
        ensures
            r@ == s * NANOS_PER_SECOND,
    {
        Duration { nanos: s * NANOS_PER_SECOND }
    }

    pub fn whole_nanoseconds(&self) -> (r: i64)
        ensures
            r == self@,
    {
        self.nanos
    }

    /// Whether `self` lies strictly before `other`.
    pub fn is_before(&self, other: &Duration) -> (r: bool)
        ensures
            r == (self@ < other@),
    {
        self.nanos < other.nanos
    }

    /// `self - d`, held at the earliest instant where it would fall below it.
    pub fn saturating_sub(&self, d: Duration) -> (r: Duration)
        ensures
            self@ - d@ >= i64::MIN && self@ - d@ <= i64::MAX ==> r@ == self@ - d@,
            self@ - d@ < i64::MIN ==> r@ == i64::MIN,
            self@ - d@ > i64::MAX ==> r@ == i64::MAX,
    {
        let diff: i128 = self.nanos as i128 - d.nanos as i128;
        if diff < i64::MIN as i128 {
            Duration { nanos: i64::MIN }
        } else if diff > i64::MAX as i128 {
            Duration { nanos: i64::MAX }
        } else {
            Duration { nanos: diff as i64 }
        }
    }
}

} // verus!
