//! Lengths of time and points in time, counted in whole nanoseconds.

use vstd::prelude::*;

verus! {

/// Nanoseconds in one millisecond.
pub const NANOS_PER_MILLI: u128 = 1_000_000;

/// Nanoseconds in one second.
pub const NANOS_PER_SEC: u128 = 1_000_000_000;

/// The longest representable [`Duration`]: the largest 64-bit count of seconds,
/// and 999,999,999 nanoseconds on top of it.
pub const MAX_DURATION_NANOS: u128 = 18_446_744_073_709_551_615_999_999_999;

/// A count of nanoseconds, cut down to what a [`Duration`] can hold.
pub open spec fn saturated(nanos: nat) -> nat {
    if nanos > MAX_DURATION_NANOS {
        MAX_DURATION_NANOS as nat
    } else {
        nanos
    }
}

/// What is left of `a` after taking `b` away, stopping at nothing.
pub open spec fn remaining(a: nat, b: nat) -> nat {
    if a > b {
        (a - b) as nat
    } else {
        0
    }
}

/// A length of time. Its view is the number of nanoseconds it lasts.
#[derive(Debug, Clone, Copy, PartialEq, Eq, PartialOrd, Ord, Structural)]
pub struct Duration {
    nanos: u128,
}

impl View for Duration {
    type V = nat;

    closed spec fn view(&self) -> nat {
        self.nanos as nat
    }
}

impl Duration {
    #[verifier::type_invariant]
    spec fn representable(self) -> bool {
        self.nanos <= MAX_DURATION_NANOS
    }

    /// No time at all.
    pub fn zero() -> (d: Duration)
        ensures
            d@ == 0,
    {
        Duration { nanos: 0 }
    }

    /// `nanos` nanoseconds, or the longest duration when that is shorter.
    pub fn from_total_nanos(nanos: u128) -> (d: Duration)
        ensures
            d@ == saturated(nanos as nat),
    {
        if nanos > MAX_DURATION_NANOS {
            Duration { nanos: MAX_DURATION_NANOS }
        } else {
            Duration { nanos }
        }
    }

    /// `nanos` nanoseconds.
    pub fn from_nanos(nanos: u64) -> (d: Duration)
        ensures
            d@ == nanos,
    {
        Duration { nanos: nanos as u128 }
    }

    /// `millis` milliseconds.
    pub fn from_millis(millis: u64) -> (d: Duration)
        ensures
            d@ == millis * NANOS_PER_MILLI,
    {
        Duration { nanos: millis as u128 * NANOS_PER_MILLI }
    }

    /// `secs` seconds.
    pub fn from_secs(secs: u64) -> (d: Duration)
        ensures
            d@ == secs * NANOS_PER_SEC,
    {
        Duration { nanos: secs as u128 * NANOS_PER_SEC }
    }

    /// The number of nanoseconds that this duration lasts.
    pub fn as_nanos(self) -> (nanos: u128)
        ensures
            nanos == self@,
            nanos <= MAX_DURATION_NANOS,
    {
        proof {
            use_type_invariant(&self);
        }
        self.nanos
    }

    /// Whether this is no time at all.
    pub fn is_zero(self) -> (zero: bool)
        ensures
            zero == (self@ == 0),
    {
        self.nanos == 0
    }

    /// The sum of two durations, or the longest duration when that is shorter.
    pub fn saturating_add(self, other: Duration) -> (sum: Duration)
        ensures
            sum@ == saturated(self@ + other@),
    {
        let a = self.as_nanos();
        let b = other.as_nanos();
        Duration::from_total_nanos(a + b)
    }

    /// What is left of this duration after `other`, stopping at nothing.
    pub fn saturating_sub(self, other: Duration) -> (rest: Duration)
        ensures
            rest@ == remaining(self@, other@),
    {
        let a = self.as_nanos();
        let b = other.as_nanos();
        if a > b {
            Duration { nanos: a - b }
        } else {
            Duration { nanos: 0 }
        }
    }

    /// This duration `times` times over, or the longest duration when that is
    /// shorter.
    pub fn saturating_mul(self, times: u32) -> (product: Duration)
        ensures
            product@ == saturated(self@ * (times as nat)),
    {
        let nanos = self.as_nanos();
        let count = times as u128;
        assert(nanos * count <= MAX_DURATION_NANOS * u32::MAX) by (nonlinear_arith)
            requires
                0 <= nanos <= MAX_DURATION_NANOS,
                0 <= count <= u32::MAX,
        ;
        Duration::from_total_nanos(nanos * count)
    }
}

/// Durations of equally many nanoseconds are the same duration.
pub proof fn durations_with_equal_nanos_are_equal(a: Duration, b: Duration)
    requires
        a@ == b@,
    ensures
        a == b,
{
}

/// A point in time. Its view is the number of nanoseconds between the origin
/// of the clock and that point; it is at most the longest [`Duration`].
#[derive(Debug, Clone, Copy, PartialEq, Eq, PartialOrd, Ord, Structural)]
pub struct Instant {
    nanos: u128,
}

impl View for Instant {
    type V = nat;

    closed spec fn view(&self) -> nat {
        self.nanos as nat
    }
}

impl Instant {
    #[verifier::type_invariant]
    spec fn representable(self) -> bool {
        self.nanos <= MAX_DURATION_NANOS
    }

    /// The point in time `elapsed` after the origin of the clock.
    pub fn at(elapsed: Duration) -> (instant: Instant)
        ensures
            instant@ == elapsed@,
    {
        Instant { nanos: elapsed.as_nanos() }
    }

    /// The number of nanoseconds since the origin of the clock.
    pub fn nanos_since_origin(self) -> (nanos: u128)
        ensures
            nanos == self@,
            nanos <= MAX_DURATION_NANOS,
    {
        proof {
            use_type_invariant(&self);
        }
        self.nanos
    }

    /// The point in time `wait` later, when there is one.
    pub fn checked_add(self, wait: Duration) -> (later: Option<Instant>)
        ensures
            later is Some <==> self@ + wait@ <= MAX_DURATION_NANOS,
            later matches Some(instant) ==> instant@ == self@ + wait@,
    {
        let start = self.nanos_since_origin();
        let nanos = wait.as_nanos();
        if start + nanos <= MAX_DURATION_NANOS {
            Some(Instant { nanos: start + nanos })
        } else {
            None
        }
    }

    /// The time from `earlier` to this point, or nothing when `earlier` is the
    /// later of the two.
    pub fn saturating_duration_since(self, earlier: Instant) -> (elapsed: Duration)
        ensures
            elapsed@ == remaining(self@, earlier@),
    {
        let end = self.nanos_since_origin();
        let start = earlier.nanos_since_origin();
        if end > start {
            Duration::from_total_nanos(end - start)
        } else {
            Duration::zero()
        }
    }
}

/// A count of nanoseconds that a [`Duration`] can hold is kept, and a larger one
/// becomes the largest that it can: that of the largest 64-bit count of seconds
/// and 999,999,999 nanoseconds.
pub proof fn counts_saturate_at_the_longest_duration(nanos: nat)
    ensures
        nanos <= 18_446_744_073_709_551_615 * 1_000_000_000 + 999_999_999 ==> saturated(nanos)
            == nanos,
        nanos > 18_446_744_073_709_551_615 * 1_000_000_000 + 999_999_999 ==> saturated(nanos)
            == 18_446_744_073_709_551_615 * 1_000_000_000 + 999_999_999,
{
}

/// What is left of a count makes up the whole together with what was taken
/// away; nothing is left where more is taken than there is.
pub proof fn what_is_left_makes_up_the_rest(a: nat, b: nat)
    ensures
        a >= b ==> remaining(a, b) + b == a,
        a <= b ==> remaining(a, b) == 0,
{
}

/// A second has a thousand milliseconds, and a millisecond a million
/// nanoseconds.
pub proof fn units_of_time_fit_together()
    ensures
        NANOS_PER_MILLI == 1_000_000,
        NANOS_PER_SEC == 1000 * NANOS_PER_MILLI,
        MAX_DURATION_NANOS == u64::MAX * NANOS_PER_SEC + NANOS_PER_SEC - 1,
{
}

} // verus!
