//! Monotonic nanosecond instants and durations.
use vstd::prelude::*;

verus! {

/// A span of time in nanoseconds.
#[derive(Debug, Clone, Copy, PartialEq, Eq, PartialOrd, Ord, Hash)]
pub struct Duration {
    nanos: u128,
}

impl View for Duration {
    type V = nat;

    closed spec fn view(&self) -> nat {
        self.nanos as nat
    }
}

impl Duration {
    /// The empty span.
    pub fn zero() -> (d: Duration)
        ensures
            d@ == 0,
    {
        Duration { nanos: 0 }
    }

    /// The longest representable span.
    pub fn max_value() -> (d: Duration)
        ensures
            d@ == u128::MAX,
    {
        Duration { nanos: u128::MAX }
    }

    /// A span of `n` nanoseconds.
    pub fn from_nanos(n: u64) -> (d: Duration)
        ensures
            d@ == n,
    {
        Duration { nanos: n as u128 }
    }

    /// A span of `n` milliseconds.
    pub fn from_millis(n: u64) -> (d: Duration)
        ensures
            d@ == n * 1_000_000,
    {
        Duration { nanos: n as u128 * 1_000_000 }
    }

    /// A span of `n` seconds.
    pub fn from_secs(n: u64) -> (d: Duration)
        ensures
            d@ == n * 1_000_000_000,
    {
        Duration { nanos: n as u128 * 1_000_000_000 }
    }

    /// Nanoseconds in this span.
    pub fn as_nanos(self) -> (n: u128)
        ensures
            n == self@,
    {
        self.nanos
    }

    /// Whether the span is empty.
    pub fn is_zero(self) -> (b: bool)
        ensures
            b == (self@ == 0),
    {
        self.nanos == 0
    }
}

/// A point on a monotonic clock, in nanoseconds from an arbitrary origin.
#[derive(Debug, Clone, Copy, PartialEq, Eq, PartialOrd, Ord, Hash)]
pub struct Instant {
    nanos: u64,
}

impl View for Instant {
    type V = nat;

    closed spec fn view(&self) -> nat {
        self.nanos as nat
    }
}

impl Instant {
    /// The instant `n` nanoseconds after the origin.
    pub fn from_nanos(n: u64) -> (t: Instant)
        ensures
            t@ == n,
    {
        Instant { nanos: n }
    }

    /// Nanoseconds since the origin.
    pub fn as_nanos(self) -> (n: u64)
        ensures
            n == self@,
    {
        self.nanos
    }

    /// The later instant, if representable.
    pub fn checked_add(self, d: Duration) -> (r: Option<Instant>)
        ensures
            self@ + d@ <= u64::MAX ==> (r matches Some(t) && t@ == self@ + d@),
            self@ + d@ > u64::MAX ==> r is None,
    {
        let room: u64 = u64::MAX - self.nanos;
        if d.nanos <= room as u128 {
            Some(Instant { nanos: self.nanos + d.nanos as u64 })
        } else {
            None
        }
    }

    /// The earlier instant, if representable.
    pub fn checked_sub(self, d: Duration) -> (r: Option<Instant>)
        ensures
            self@ >= d@ ==> (r matches Some(t) && t@ == self@ - d@),
            self@ < d@ ==> r is None,
    {
        if self.nanos as u128 >= d.nanos {
            Some(Instant { nanos: self.nanos - d.nanos as u64 })
        } else {
            None
        }
    }

    /// Whether this instant is strictly before another.
    pub fn before(self, other: Instant) -> (b: bool)
        ensures
            b == (self@ < other@),
    {
        self.nanos < other.nanos
    }

    /// The earlier of two instants.
    pub fn min(self, other: Instant) -> (t: Instant)
        ensures
            t@ == if self@ <= other@ { self@ } else { other@ },
    {
        if self.nanos <= other.nanos { self } else { other }
    }
}

} // verus!
