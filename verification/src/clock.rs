//! Lengths of time.

use vstd::prelude::*;

verus! {

/// The nanoseconds in a second.
pub const SECOND: u128 = 1_000_000_000;

/// The nanoseconds in a millisecond.
pub const MILLI: u128 = 1_000_000;

/// So many seconds from the moment `now` are still counted.
pub open spec fn in_time(now: int, secs: u64) -> bool {
    now + secs * SECOND < 0x1_0000_0000_0000_0000 * SECOND
}

/// A length of time, to the nanosecond; its view is the number of nanoseconds.
#[derive(Debug, Clone, Copy, PartialEq, Eq)]
pub struct Duration {
    nanos: u128,
}

impl View for Duration {
    type V = int;

    closed spec fn view(&self) -> int {
        self.nanos as int
    }
}

impl Duration {
    /// At most as many whole seconds as a `u64` holds.
    #[verifier::type_invariant]
    spec fn bounded(self) -> bool {
        self.nanos < 0x1_0000_0000_0000_0000u128 * SECOND
    }

    /// `secs` seconds and `nanos` nanoseconds, the latter less than a second.
    pub fn new(secs: u64, nanos: u32) -> (r: Duration)
        requires
            nanos < SECOND,
        ensures
            r@ == secs * SECOND + nanos,
    {
        Duration { nanos: secs as u128 * SECOND + nanos as u128 }
    }

    pub fn from_secs(secs: u64) -> (r: Duration)
        ensures
            r@ == secs * SECOND,
    {
        Duration { nanos: secs as u128 * SECOND }
    }

    pub fn from_millis(millis: u64) -> (r: Duration)
        ensures
            r@ == millis * MILLI,
    {
        Duration { nanos: millis as u128 * MILLI }
    }

    /// The whole seconds of this length.
    pub fn as_secs(&self) -> (r: u64)
        ensures
            r == self@ / SECOND as int,
    {
        proof {
            use_type_invariant(self);
        }
        (self.nanos / SECOND) as u64
    }

    /// Whether this length is `secs` seconds or more.
    pub fn at_least(&self, secs: u64) -> (r: bool)
        ensures
            r == (self@ >= secs * SECOND),
    {
        self.nanos >= secs as u128 * SECOND
    }

    /// No time.
    pub fn zero() -> (r: Duration)
        ensures
            r@ == 0,
    {
        Duration { nanos: 0 }
    }

    /// Whether this length is `other` or more.
    pub fn at_least_as(&self, other: &Duration) -> (r: bool)
        ensures
            r == (self@ >= other@),
    {
        self.nanos >= other.nanos
    }

    /// Both lengths together.
    pub fn plus(&self, other: &Duration) -> (r: Duration)
        requires
            self@ + other@ < 0x1_0000_0000_0000_0000 * SECOND,
        ensures
            r@ == self@ + other@,
    {
        Duration { nanos: self.nanos + other.nanos }
    }

    /// What is left of this length without the shorter one.
    pub fn minus(&self, other: &Duration) -> (r: Duration)
        requires
            other@ <= self@,
        ensures
            r@ == self@ - other@,
    {
        proof {
            use_type_invariant(self);
        }
        Duration { nanos: self.nanos - other.nanos }
    }

    /// Twice this length, `secs` seconds at most.
    pub fn doubled_upto(&self, secs: u64) -> (r: Duration)
        ensures
            r@ == if 2 * self@ > secs * SECOND {
                secs * SECOND
            } else {
                2 * self@
            },
    {
        proof {
            use_type_invariant(self);
        }
        if self.nanos * 2 > secs as u128 * SECOND {
            Duration::from_secs(secs)
        } else {
            Duration { nanos: self.nanos * 2 }
        }
    }

    /// Whether this length is more than `secs` seconds.
    pub fn exceeds(&self, secs: u64) -> (r: bool)
        ensures
            r == (self@ > secs * SECOND),
    {
        self.nanos > secs as u128 * SECOND
    }

    /// Whether this length is `millis` milliseconds or more.
    pub fn at_least_millis(&self, millis: u64) -> (r: bool)
        ensures
            r == (self@ >= millis * MILLI),
    {
        self.nanos >= millis as u128 * MILLI
    }
}

} // verus!
