//! Durations for the tick-driven simulation, counted in whole nanoseconds.
//!
//! Envelope timing only ever accumulates elapsed time and compares it with
//! the envelope's phase lengths, so a plain nanosecond count is enough.
//! Accumulation saturates at the largest representable duration (over five
//! centuries) instead of wrapping.
use vstd::prelude::*;

verus! {

pub const NANOS_PER_SEC: u64 = 1_000_000_000;

/// The product of two counts, saturating at the largest `u64`.
fn mul_saturating(a: u64, b: u64) -> (r: u64)
    ensures
        r as int == if a * b <= u64::MAX {
            a * b
        } else {
            u64::MAX as int
        },
{
    proof {
        assert(a * b <= u64::MAX * u64::MAX) by (nonlinear_arith)
            requires
                a <= u64::MAX,
                b <= u64::MAX,
        ;
    }
    let wide: u128 = (a as u128) * (b as u128);
    if wide <= u64::MAX as u128 {
        wide as u64
    } else {
        u64::MAX
    }
}

pub const NANOS_PER_MILLI: u64 = 1_000_000;

/// A span of simulation time, in nanoseconds.
#[derive(Clone, Copy, Debug, PartialEq, Eq, Structural)]
pub struct Duration {
    pub nanos: u64,
}

impl Duration {
    /// A duration of `secs` whole seconds, saturating at the maximum.
    pub fn from_secs(secs: u64) -> (r: Duration)
        ensures
            r.nanos as int == if secs * NANOS_PER_SEC <= u64::MAX {
                secs * NANOS_PER_SEC
            } else {
                u64::MAX as int
            },
    {
        Duration { nanos: mul_saturating(secs, NANOS_PER_SEC) }
    }

    /// A duration of `millis` whole milliseconds, saturating at the maximum.
    pub fn from_millis(millis: u64) -> (r: Duration)
        ensures
            r.nanos as int == if millis * NANOS_PER_MILLI <= u64::MAX {
                millis * NANOS_PER_MILLI
            } else {
                u64::MAX as int
            },
    {
        Duration { nanos: mul_saturating(millis, NANOS_PER_MILLI) }
    }

    /// A duration of `nanos` nanoseconds.
    pub fn from_nanos(nanos: u64) -> (r: Duration)
        ensures
            r.nanos == nanos,
    {
        Duration { nanos }
    }

    /// The number of whole nanoseconds in this duration.
    pub fn as_nanos(self) -> (r: u64)
        ensures
            r == self.nanos,
    {
        self.nanos
    }

    /// True if this duration is zero.
    pub fn is_zero(self) -> (r: bool)
        ensures
            r == (self.nanos == 0),
    {
        self.nanos == 0
    }

    /// The sum of two durations, as a spec-level value: saturating.
    pub open spec fn spec_add(self, other: Duration) -> Duration {
        Duration {
            nanos: if self.nanos + other.nanos <= u64::MAX {
                (self.nanos + other.nanos) as u64
            } else {
                u64::MAX
            },
        }
    }

    /// Add another duration onto this one, saturating at the maximum.
    pub fn saturating_add(self, other: Duration) -> (r: Duration)
        ensures
            r == self.spec_add(other),
    {
        Duration { nanos: self.nanos.saturating_add(other.nanos) }
    }
}

} // verus!
