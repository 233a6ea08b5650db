//! Points in time and spans of time, in the protocol's fixed-point format.

use vstd::prelude::*;

verus! {

/// Seconds since the epoch and a binary fraction of a second.
#[derive(Clone, Copy, Debug, PartialEq, Eq, Structural, Hash, PartialOrd, Ord)]
pub struct Timestamp {
    pub seconds: u32,
    pub fraction: u32,
}

impl Timestamp {
    #[verifier::allow_in_spec]
    pub fn zero() -> (r: Timestamp)
        returns
            (Timestamp { seconds: 0x0000_0000, fraction: 0x0000_0000 }),
    {
        Timestamp { seconds: 0x0000_0000, fraction: 0x0000_0000 }
    }

    #[verifier::allow_in_spec]
    pub fn invalid() -> (r: Timestamp)
        returns
            (Timestamp { seconds: 0xFFFF_FFFF, fraction: 0xFFFF_FFFF }),
    {
        Timestamp { seconds: 0xFFFF_FFFF, fraction: 0xFFFF_FFFF }
    }

    /// The number of ticks of 2^-32 seconds since the epoch.
    pub open spec fn ticks(self) -> int {
        self.seconds * 0x1_0000_0000 + self.fraction
    }

    /// Is this point before the other one?
    pub fn is_before(&self, other: &Timestamp) -> (r: bool)
        ensures
            r == (self.ticks() < other.ticks()),
    {
        self.seconds < other.seconds || (self.seconds == other.seconds && self.fraction
            < other.fraction)
    }
}

/// A span of time in ticks of 2^-32 seconds.
#[derive(Clone, Copy, Debug, PartialEq, Eq, Structural, Hash, PartialOrd, Ord)]
pub struct Duration {
    pub ticks: i64,
}

impl Duration {
    #[verifier::allow_in_spec]
    pub fn zero() -> (r: Duration)
        returns
            (Duration { ticks: 0 }),
    {
        Duration { ticks: 0 }
    }

    pub fn from_secs(seconds: i32) -> (d: Duration)
        ensures
            d.ticks == seconds * 0x1_0000_0000,
    {
        Duration { ticks: seconds as i64 * 0x1_0000_0000 }
    }

    /// Whole milliseconds, the fraction rounded down to a tick.
    pub fn from_millis(millis: u32) -> (d: Duration)
        ensures
            d.ticks == (millis * 0x1_0000_0000) / 1000,
    {
        Duration { ticks: ((millis as u64 * 0x1_0000_0000) / 1000) as i64 }
    }

    /// The span cut into `parts` equal parts, rounded towards zero.
    pub open spec fn spec_divided_by(self, parts: int) -> int {
        if self.ticks >= 0 {
            self.ticks as int / parts
        } else {
            -((-self.ticks) / parts)
        }
    }

    pub fn divided_by(self, parts: i64) -> (d: Duration)
        requires
            parts >= 1,
        ensures
            d.ticks == self.spec_divided_by(parts as int),
    {
        let magnitude: u64 = if self.ticks >= 0 {
            self.ticks as u64
        } else {
            (-(self.ticks as i128)) as u64
        };
        let part: u64 = magnitude / parts as u64;
        assert(0 <= part <= magnitude) by (nonlinear_arith)
            requires
                part == magnitude as int / parts as int,
                parts >= 1,
                magnitude >= 0,
        ;
        if self.ticks >= 0 {
            Duration { ticks: part as i64 }
        } else {
            Duration { ticks: (-(part as i128)) as i64 }
        }
    }

    /// The shorter of two spans.
    pub fn shorter(self, other: Duration) -> (d: Duration)
        ensures
            d == (if self.ticks <= other.ticks {
                self
            } else {
                other
            }),
    {
        if self.ticks <= other.ticks {
            self
        } else {
            other
        }
    }
}

/// A span that is cut into equal parts is not shorter than these together, and is shorter
/// than these with one more tick each.
pub proof fn law_parts_make_up_the_span(span: Duration, parts: int)
    requires
        parts >= 1,
        span.ticks >= 0,
    ensures
        parts * span.spec_divided_by(parts) <= span.ticks,
        span.ticks < parts * (span.spec_divided_by(parts) + 1),
{
    vstd::arithmetic::div_mod::lemma_fundamental_div_mod(span.ticks as int, parts);
    vstd::arithmetic::div_mod::lemma_mod_bound(span.ticks as int, parts);
    let q = span.spec_divided_by(parts);
    assert(parts * (q + 1) == parts * q + parts) by (nonlinear_arith);
}

/// Points in time are in order: none is before itself, and of two different ones one is
/// before the other.
pub proof fn law_points_in_time_are_in_order(a: Timestamp, b: Timestamp)
    ensures
        a.ticks() == b.ticks() <==> a == b,
        a.seconds < b.seconds ==> a.ticks() < b.ticks(),
        a.seconds == b.seconds && a.fraction < b.fraction ==> a.ticks() < b.ticks(),
{
}

} // verus!
