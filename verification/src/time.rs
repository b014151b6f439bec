//! Spans of time and points on a monotonic clock, both in nanoseconds.

use vstd::prelude::*;

verus! {

/// The nanoseconds of the longest span: `u64::MAX` seconds and 999,999,999
/// nanoseconds.
pub const MAX_SPAN_NANOS: u128 = 18_446_744_073_709_551_615_999_999_999;

/// A span of time.
#[derive(Debug, Clone, Copy, PartialEq, Eq, Hash, Structural)]
pub struct Duration {
    pub nanos: u128,
}

/// A point in time: the span since an arbitrary start that the caller's clock
/// fixes.
#[derive(Debug, Clone, Copy, PartialEq, Eq, Hash, Structural)]
pub struct Instant {
    pub nanos: u128,
}

impl Duration {
    pub open spec fn secs_spec(seconds: u64) -> Self {
        Duration { nanos: (seconds * 1_000_000_000) as u128 }
    }

    pub open spec fn millis_spec(millis: u64) -> Self {
        Duration { nanos: (millis * 1_000_000) as u128 }
    }

    pub open spec fn max_span() -> Self {
        Duration { nanos: MAX_SPAN_NANOS }
    }

    pub open spec fn zero_span() -> Self {
        Duration { nanos: 0 }
    }

    pub open spec fn min_spec(self, other: Self) -> Self {
        if self.nanos <= other.nanos {
            self
        } else {
            other
        }
    }

    pub open spec fn max_spec(self, other: Self) -> Self {
        if self.nanos >= other.nanos {
            self
        } else {
            other
        }
    }

    pub fn from_secs(seconds: u64) -> (span: Self)
        ensures
            span == Self::secs_spec(seconds),
            span.nanos == seconds * 1_000_000_000,
    {
        Duration { nanos: seconds as u128 * 1_000_000_000 }
    }

    pub fn from_millis(millis: u64) -> (span: Self)
        ensures
            span == Self::millis_spec(millis),
            span.nanos == millis * 1_000_000,
    {
        Duration { nanos: millis as u128 * 1_000_000 }
    }

    /// The empty span.
    pub fn zero() -> (span: Self)
        ensures
            span == Self::zero_span(),
    {
        Duration { nanos: 0 }
    }

    /// The longest span.
    pub fn max_value() -> (span: Self)
        ensures
            span == Self::max_span(),
    {
        Duration { nanos: MAX_SPAN_NANOS }
    }

    pub fn is_zero(self) -> (b: bool)
        ensures
            b == (self.nanos == 0),
    {
        self.nanos == 0
    }

    /// Whole milliseconds, the rest cut off.
    pub fn as_millis(self) -> (millis: u128)
        ensures
            millis == self.nanos / 1_000_000,
    {
        self.nanos / 1_000_000
    }

    /// Whole seconds, the rest cut off.
    pub fn as_secs(self) -> (seconds: u128)
        ensures
            seconds == self.nanos / 1_000_000_000,
    {
        self.nanos / 1_000_000_000
    }

    pub fn min(self, other: Self) -> (span: Self)
        ensures
            span == self.min_spec(other),
    {
        if self.nanos <= other.nanos {
            self
        } else {
            other
        }
    }

    pub fn max(self, other: Self) -> (span: Self)
        ensures
            span == self.max_spec(other),
    {
        if self.nanos >= other.nanos {
            self
        } else {
            other
        }
    }

    /// `self - other`, or zero where `other` is longer.
    pub fn saturating_sub(self, other: Self) -> (span: Self)
        ensures
            span.nanos == if self.nanos >= other.nanos {
                self.nanos - other.nanos
            } else {
                0
            },
    {
        if self.nanos >= other.nanos {
            Duration { nanos: self.nanos - other.nanos }
        } else {
            Duration { nanos: 0 }
        }
    }

    /// `self + other`, or the longest span where that is shorter.
    pub fn saturating_add(self, other: Self) -> (span: Self)
        ensures
            span.nanos == if self.nanos + other.nanos <= MAX_SPAN_NANOS {
                self.nanos + other.nanos
            } else {
                MAX_SPAN_NANOS as int
            },
    {
        if self.nanos <= MAX_SPAN_NANOS && other.nanos <= MAX_SPAN_NANOS - self.nanos {
            Duration { nanos: self.nanos + other.nanos }
        } else {
            Duration { nanos: MAX_SPAN_NANOS }
        }
    }

    /// `self * factor`, unless that is longer than the longest span.
    pub fn checked_mul(self, factor: u32) -> (span: Option<Self>)
        ensures
            span == if self.nanos * factor <= MAX_SPAN_NANOS {
                Some(Duration { nanos: (self.nanos * factor) as u128 })
            } else {
                None
            },
    {
        proof {
            if self.nanos > MAX_SPAN_NANOS && factor > 0 {
                assert(self.nanos * factor >= self.nanos) by (nonlinear_arith)
                    requires
                        factor >= 1,
                ;
            } else if factor > 0 {
                assert(self.nanos * factor <= MAX_SPAN_NANOS * 0xffff_ffff) by (nonlinear_arith)
                    requires
                        0 <= self.nanos <= MAX_SPAN_NANOS,
                        0 <= factor <= 0xffff_ffff,
                ;
            }
            if factor == 0 {
                assert(self.nanos * factor == 0) by (nonlinear_arith)
                    requires
                        factor == 0,
                ;
            }
        }
        if factor == 0 {
            return Some(Duration { nanos: 0 });
        }
        if self.nanos > MAX_SPAN_NANOS {
            return None;
        }
        let product: u128 = self.nanos * factor as u128;
        if product <= MAX_SPAN_NANOS {
            Some(Duration { nanos: product })
        } else {
            None
        }
    }

    /// `self * factor`, or the longest span where that is shorter.
    pub fn saturating_mul(self, factor: u32) -> (span: Self)
        ensures
            span.nanos == if self.nanos * factor <= MAX_SPAN_NANOS {
                self.nanos * factor
            } else {
                MAX_SPAN_NANOS as int
            },
    {
        match self.checked_mul(factor) {
            Some(span) => span,
            None => Duration { nanos: MAX_SPAN_NANOS },
        }
    }
}

impl Instant {
    /// The point that lies `span` after the start.
    pub fn at(span: Duration) -> (point: Self)
        ensures
            point.nanos == span.nanos,
    {
        Instant { nanos: span.nanos }
    }

    /// The point `span` after this one.
    pub open spec fn after_spec(self, span: Duration) -> Self {
        Instant { nanos: (self.nanos + span.nanos) as u128 }
    }

    /// How long after `earlier` this point lies, zero where it lies before.
    pub open spec fn since_spec(self, earlier: Self) -> Duration {
        Duration {
            nanos: if self.nanos >= earlier.nanos {
                (self.nanos - earlier.nanos) as u128
            } else {
                0
            },
        }
    }

    /// Whether a point `span` after this one can be written down.
    pub open spec fn can_add(self, span: Duration) -> bool {
        self.nanos + span.nanos <= u128::MAX
    }

    /// The point `span` after this one.
    pub fn after(self, span: Duration) -> (point: Self)
        requires
            self.can_add(span),
        ensures
            point == self.after_spec(span),
    {
        Instant { nanos: self.nanos + span.nanos }
    }

    /// How long after `earlier` this point lies, zero where it lies before.
    pub fn duration_since(self, earlier: Self) -> (span: Duration)
        ensures
            span == self.since_spec(earlier),
    {
        if self.nanos >= earlier.nanos {
            Duration { nanos: self.nanos - earlier.nanos }
        } else {
            Duration { nanos: 0 }
        }
    }

    /// How long after `earlier` this point lies, if it does not lie before.
    pub fn checked_duration_since(self, earlier: Self) -> (span: Option<Duration>)
        ensures
            span == if self.nanos >= earlier.nanos {
                Some(self.since_spec(earlier))
            } else {
                None
            },
    {
        if self.nanos >= earlier.nanos {
            Some(Duration { nanos: self.nanos - earlier.nanos })
        } else {
            None
        }
    }
}

/// A second is a thousand milliseconds of a million nanoseconds each.
pub proof fn law_spans_are_counted_in_nanoseconds(seconds: u64, millis: u64)
    ensures
        Duration::secs_spec(seconds).nanos == seconds * 1_000_000_000,
        Duration::millis_spec(millis).nanos == millis * 1_000_000,
        millis == 1000 * seconds ==> Duration::millis_spec(millis) == Duration::secs_spec(seconds),
{
}

/// The shorter and the longer of two spans are what they are called.
pub proof fn law_shorter_and_longer(left: Duration, right: Duration)
    ensures
        left.min_spec(right).nanos <= left.nanos && left.min_spec(right).nanos <= right.nanos,
        left.min_spec(right) == left || left.min_spec(right) == right,
        left.max_spec(right).nanos >= left.nanos && left.max_spec(right).nanos >= right.nanos,
        left.max_spec(right) == left || left.max_spec(right) == right,
{
}

/// The time since a point is the span that leads from it to now, and nothing for
/// a point that is yet to come.
pub proof fn law_time_goes_on(point: Instant, span: Duration, now: Instant)
    requires
        point.can_add(span),
    ensures
        point.after_spec(span).nanos == point.nanos + span.nanos,
        point.after_spec(span).since_spec(point) == span,
        now.nanos >= point.nanos ==> now.since_spec(point).nanos == now.nanos - point.nanos,
        now.nanos <= point.nanos ==> now.since_spec(point).nanos == 0,
{
}

} // verus!
