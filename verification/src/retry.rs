//! When something is tried again.

use crate::driad::low_millis;
use crate::random::{drawn_or, random_u64};
use crate::time::{Duration, Instant};
use vstd::prelude::*;

verus! {

/// When a gateway tries again.
#[derive(Debug, Clone, Copy, PartialEq, Eq, Structural)]
pub struct GatewayRetry {
    pub attempt: u32,
    pub next_attempt: Instant,
}

/// The longest time until the attempt after the given one: a second, doubled
/// with each attempt, but at most two minutes.
pub open spec fn upper_delay_of(attempt: u32) -> Duration {
    if attempt >= 7 {
        Duration::secs_spec(120)
    } else {
        Duration::secs_spec(vstd::arithmetic::power2::pow2(attempt as nat) as u64)
    }
}

/// The time until the next attempt that a random number picks, between a second
/// and the longest time.
pub open spec fn retry_delay(upper: Duration, random: u64) -> Duration {
    let upper_ms = low_millis(upper);
    if upper_ms <= 1000 {
        Duration::millis_spec(1000)
    } else {
        Duration::millis_spec((1000 + random as int % (upper_ms - 1000 + 1)) as u64)
    }
}

/// A retry after an attempt, given a random number.
pub open spec fn retried(retry: GatewayRetry, now: Instant, random: u64) -> GatewayRetry {
    GatewayRetry {
        attempt: if retry.attempt < u32::MAX {
            (retry.attempt + 1) as u32
        } else {
            retry.attempt
        },
        next_attempt: now.after_spec(retry_delay(upper_delay_of(retry.attempt), random)),
    }
}

/// A retry after a first attempt, given a random number.
pub open spec fn retried_anew(now: Instant, random: u64) -> GatewayRetry {
    retried(GatewayRetry { attempt: 0, next_attempt: now }, now, random)
}

#[verifier::truncate]
fn millis_of(span: Duration) -> (millis: u64)
    ensures
        millis == low_millis(span),
{
    span.as_millis() as u64
}

/// The time until the next attempt that a random number picks.
pub fn randomized_retry_delay_with(upper: Duration, random: u64) -> (delay: Duration)
    ensures
        delay == retry_delay(upper, random),
{
    let lower_ms: u64 = 1000;
    let upper_ms: u64 = millis_of(upper);
    if upper_ms <= lower_ms {
        return Duration::from_millis(lower_ms);
    }
    let span: u64 = upper_ms - lower_ms + 1;
    Duration::from_millis(lower_ms + random % span)
}

/// A random time until the next attempt; where randomness fails, the longest
/// time stands in for the random number.
pub fn randomized_retry_delay(upper: Duration) -> (delay: Duration)
    ensures
        exists|random: u64| delay == #[trigger] retry_delay(upper, random),
{
    let random: u64 = drawn_or(random_u64(), millis_of(upper));
    randomized_retry_delay_with(upper, random)
}

/// The milliseconds of a span, or the largest number of 64 bits.
pub open spec fn capped_millis(span: Duration) -> int {
    if span.nanos / 1_000_000 <= u64::MAX {
        span.nanos as int / 1_000_000
    } else {
        u64::MAX as int
    }
}

/// The span between two bounds, in whole milliseconds, that a random number
/// picks; the upper bound counts only where it is not the shorter one.
pub open spec fn span_between(lower: Duration, upper: Duration, random: u64) -> Duration {
    let low = capped_millis(lower);
    let high = capped_millis(upper.max_spec(lower));
    let count = if high - low < u64::MAX {
        high - low + 1
    } else {
        u64::MAX as int
    };
    Duration::millis_spec((low + random as int % count) as u64)
}

fn millis_capped(span: Duration) -> (millis: u64)
    ensures
        millis == capped_millis(span),
{
    let millis: u128 = span.as_millis();
    if millis <= u64::MAX as u128 {
        millis as u64
    } else {
        u64::MAX
    }
}

/// The span between two bounds that a random number picks.
pub fn randomized_duration_between_with(lower: Duration, upper: Duration, random: u64) -> (span:
    Duration)
    ensures
        span == span_between(lower, upper, random),
{
    let low: u64 = millis_capped(lower);
    let high: u64 = millis_capped(upper.max(lower));
    let count: u64 = high.saturating_sub(low).saturating_add(1);
    proof {
        assert(high >= low) by {
            assert(upper.max_spec(lower).nanos >= lower.nanos);
            vstd::arithmetic::div_mod::lemma_div_is_ordered(
                lower.nanos as int,
                upper.max_spec(lower).nanos as int,
                1_000_000,
            );
        }
        assert(low + random as int % (count as int) <= u64::MAX);
    }
    Duration::from_millis(low.saturating_add(random % count))
}

/// A random span between two bounds; where randomness fails, the upper one
/// picks.
pub fn randomized_duration_between(lower: Duration, upper: Duration) -> (span: Duration)
    ensures
        exists|random: u64| span == #[trigger] span_between(lower, upper, random),
{
    let random: u64 = drawn_or(random_u64(), millis_capped(upper.max(lower)));
    randomized_duration_between_with(lower, upper, random)
}

impl GatewayRetry {
    /// The first attempt is due at once.
    pub fn due_now(now: Instant) -> (retry: Self)
        ensures
            retry == (GatewayRetry { attempt: 0, next_attempt: now }),
    {
        GatewayRetry { attempt: 0, next_attempt: now }
    }

    pub fn is_due(&self, now: Instant) -> (due: bool)
        ensures
            due == (now.nanos >= self.next_attempt.nanos),
    {
        now.nanos >= self.next_attempt.nanos
    }

    /// The longest time until the attempt after the given one.
    pub fn upper_delay(attempt: u32) -> (delay: Duration)
        ensures
            delay == upper_delay_of(attempt),
    {
        proof {
            vstd::arithmetic::power2::lemma2_to64();
        }
        let seconds: u64 = match attempt {
            0 => 1,
            1 => 2,
            2 => 4,
            3 => 8,
            4 => 16,
            5 => 32,
            6 => 64,
            _ => 120,
        };
        Duration::from_secs(seconds)
    }

    /// Takes note of an attempt, given a random number.
    pub fn after_send_with(&mut self, now: Instant, random: u64)
        requires
            now.can_add(Duration::secs_spec(120)),
        ensures
            *final(self) == retried(*old(self), now, random),
    {
        proof {
            lemma_delay_bounds(self.attempt, random);
        }
        let delay = randomized_retry_delay_with(Self::upper_delay(self.attempt), random);
        self.attempt = self.attempt.saturating_add(1);
        self.next_attempt = now.after(delay);
    }

    /// A random number for the time until the attempt after the given one; where
    /// randomness fails, the longest time in milliseconds.
    pub fn draw(attempt: u32) -> (random: u64) {
        drawn_or(random_u64(), millis_of(Self::upper_delay(attempt)))
    }

    /// Takes note of an attempt.
    pub fn after_send(&mut self, now: Instant)
        requires
            now.can_add(Duration::secs_spec(120)),
        ensures
            exists|random: u64| *final(self) == #[trigger] retried(*old(self), now, random),
    {
        let random: u64 = Self::draw(self.attempt);
        self.after_send_with(now, random);
    }

    /// Takes note of a first attempt, given a random number.
    pub fn reset_after_send_with(&mut self, now: Instant, random: u64)
        requires
            now.can_add(Duration::secs_spec(120)),
        ensures
            *final(self) == retried_anew(now, random),
    {
        *self = Self::due_now(now);
        self.after_send_with(now, random);
    }

    /// Takes note of a first attempt.
    pub fn reset_after_send(&mut self, now: Instant)
        requires
            now.can_add(Duration::secs_spec(120)),
        ensures
            exists|random: u64| *final(self) == #[trigger] retried_anew(now, random),
    {
        let random: u64 = Self::draw(0);
        self.reset_after_send_with(now, random);
    }
}

/// A delay is at least a second and at most the longest one.
pub proof fn lemma_delay_bounds(attempt: u32, random: u64)
    ensures
        Duration::secs_spec(1).nanos <= retry_delay(upper_delay_of(attempt), random).nanos
            <= upper_delay_of(attempt).nanos <= Duration::secs_spec(120).nanos,
{
    vstd::arithmetic::power2::lemma2_to64();
    let upper = upper_delay_of(attempt);
    if attempt < 7 {
        assert(attempt == 0 || attempt == 1 || attempt == 2 || attempt == 3 || attempt == 4
            || attempt == 5 || attempt == 6);
    }
    let upper_ms = low_millis(upper);
    assert(upper_ms * 1_000_000 == upper.nanos);
    if upper_ms > 1000 {
        assert(0 <= random as int % (upper_ms - 1000 + 1) <= upper_ms - 1000);
    }
}

/// A gateway tries again at the earliest after a second and at the latest after
/// two minutes, however often it has tried.
pub proof fn law_retries_come_in_time(retry: GatewayRetry, now: Instant, random: u64)
    requires
        now.can_add(Duration::secs_spec(120)),
    ensures
        now.nanos + 1_000_000_000 <= retried(retry, now, random).next_attempt.nanos <= now.nanos
            + 120_000_000_000,
{
    lemma_delay_bounds(retry.attempt, random);
}

/// The longest time until another attempt is a second at first, doubles with each
/// attempt, and ends at two minutes.
pub proof fn law_delays_double(attempt: u32)
    requires
        attempt < u32::MAX,
    ensures
        upper_delay_of(0).nanos == 1_000_000_000,
        upper_delay_of((attempt + 1) as u32).nanos == if 2 * upper_delay_of(attempt).nanos
            <= 120_000_000_000 {
            2 * upper_delay_of(attempt).nanos
        } else {
            120_000_000_000
        },
{
    vstd::arithmetic::power2::lemma2_to64();
    if attempt < 7 {
        assert(attempt == 0 || attempt == 1 || attempt == 2 || attempt == 3 || attempt == 4
            || attempt == 5 || attempt == 6);
    }
}

/// The time until another attempt is any whole number of milliseconds from a
/// second to the longest time, as the random number has it; the attempt counts,
/// and the time runs from now.
pub proof fn law_random_numbers_pick_the_delay(retry: GatewayRetry, now: Instant, random: u64)
    requires
        now.can_add(Duration::secs_spec(120)),
        1000 + random <= upper_delay_of(retry.attempt).nanos / 1_000_000,
    ensures
        retried(retry, now, random).next_attempt.nanos == now.nanos + (1000 + random) * 1_000_000,
        retry.attempt < u32::MAX ==> retried(retry, now, random).attempt == retry.attempt + 1,
        retried_anew(now, random).attempt == 1,
        retried_anew(now, random).next_attempt.nanos == now.nanos + 1_000_000_000,
{
    vstd::arithmetic::power2::lemma2_to64();
    lemma_delay_bounds(retry.attempt, random);
    lemma_delay_bounds(0, random);
    let upper_ms = low_millis(upper_delay_of(retry.attempt));
    if upper_ms > 1000 {
        assert(random as int % (upper_ms - 1000 + 1) == random) by {
            vstd::arithmetic::div_mod::lemma_small_mod(
                random as nat,
                (upper_ms - 1000 + 1) as nat,
            );
        }
    }
}

} // verus!
