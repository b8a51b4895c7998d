//! Monotonic time, deadline arming, and counter-tick arithmetic.
use vstd::prelude::*;

use vstd::arithmetic::div_mod::{
    lemma_div_is_ordered, lemma_div_multiples_vanish, lemma_fundamental_div_mod,
    lemma_fundamental_div_mod_converse_div,
};
use vstd::arithmetic::mul::{lemma_mul_inequality, lemma_mul_is_commutative};

verus! {

/// Monotonic time source and one-shot deadline support, in nanoseconds.
///
/// `now_ns` never goes backwards; `arm_deadline` takes an absolute time
/// and replaces any armed deadline; `cancel_deadline` clears it (a no-op
/// when none is armed); `resolution_ns` is the granularity deadlines
/// round to.
pub trait Timer: Send + Sync {
    /// Nanoseconds elapsed since boot.
    fn now_ns(&self) -> u64;

    /// Arm a one-shot deadline at the absolute time `deadline_ns`.
    fn arm_deadline(&self, deadline_ns: u64);

    /// Clear any pending deadline.
    fn cancel_deadline(&self);

    /// The timer's resolution in nanoseconds.
    fn resolution_ns(&self) -> u64;
}

/// Nanoseconds in one second.
pub const NANOS_PER_SECOND: u64 = 1_000_000_000;

/// `x` clamped from above to `u64::MAX`.
pub open spec fn saturate(x: int) -> int {
    if x > u64::MAX {
        u64::MAX as int
    } else {
        x
    }
}

/// Nanoseconds covered by `count` ticks at `freq` Hz, rounded down and
/// saturated at `u64::MAX`.
pub open spec fn ticks_to_ns_spec(count: int, freq: int) -> int {
    saturate(count * NANOS_PER_SECOND / freq)
}

/// Ticks at `freq` Hz needed to cover `ns` nanoseconds, rounded up and
/// saturated at `u64::MAX`.
pub open spec fn ns_to_ticks_spec(ns: int, freq: int) -> int {
    saturate((ns * freq + NANOS_PER_SECOND - 1) / (NANOS_PER_SECOND as int))
}

/// The tick period at `freq` Hz in nanoseconds, rounded to nearest and
/// at least 1.
pub open spec fn resolution_spec(freq: int) -> int {
    let raw = (NANOS_PER_SECOND + freq / 2) / freq;
    if raw == 0 {
        1
    } else {
        raw
    }
}

/// Convert counter ticks to nanoseconds at `frequency_hz`, rounding down.
///
/// The product is formed in 128 bits, so it never overflows; a result
/// beyond `u64::MAX` saturates to `u64::MAX` instead of wrapping, which
/// keeps a clock built on it monotonic.
pub fn ticks_to_ns(count: u64, frequency_hz: u64) -> (r: u64)
    requires
        frequency_hz != 0,
    ensures
        r == ticks_to_ns_spec(count as int, frequency_hz as int),
{
    let c = count as u128;
    let nanos = NANOS_PER_SECOND as u128;
    assert(c * nanos <= 0xffff_ffff_ffff_ffffu128 * 1_000_000_000u128) by (nonlinear_arith)
        requires
            c <= 0xffff_ffff_ffff_ffffu128,
            nanos == 1_000_000_000u128,
    ;
    let intermediate = c * nanos;
    let ns = intermediate / (frequency_hz as u128);
    if ns > u64::MAX as u128 {
        u64::MAX
    } else {
        ns as u64
    }
}

/// Round-to-nearest tick period in nanoseconds at `frequency_hz`,
/// clamped to at least 1 ns (above 2 GHz the nearest value would be 0).
pub fn resolution_ns_for_freq(frequency_hz: u64) -> (r: u64)
    requires
        frequency_hz != 0,
    ensures
        r == resolution_spec(frequency_hz as int),
        r >= 1,
{
    let raw = (NANOS_PER_SECOND + frequency_hz / 2) / frequency_hz;
    if raw == 0 {
        1
    } else {
        raw
    }
}

/// Convert nanoseconds to counter ticks at `frequency_hz`, rounding up so
/// that a deadline converted to ticks is never reached early.
///
/// The product is formed in 128 bits; a result beyond `u64::MAX`
/// saturates to `u64::MAX`.
pub fn ns_to_ticks(ns: u64, frequency_hz: u64) -> (r: u64)
    requires
        frequency_hz != 0,
    ensures
        r == ns_to_ticks_spec(ns as int, frequency_hz as int),
{
    let a = ns as u128;
    let f = frequency_hz as u128;
    assert(a * f <= 0xffff_ffff_ffff_ffffu128 * 0xffff_ffff_ffff_ffffu128) by (nonlinear_arith)
        requires
            a <= 0xffff_ffff_ffff_ffffu128,
            f <= 0xffff_ffff_ffff_ffffu128,
    ;
    let intermediate = a * f;
    let nanos = NANOS_PER_SECOND as u128;
    let ticks = (intermediate + (nanos - 1)) / nanos;
    if ticks > u64::MAX as u128 {
        u64::MAX
    } else {
        ticks as u64
    }
}

/// More ticks never convert to fewer nanoseconds.
pub proof fn lemma_ticks_to_ns_monotonic(count1: u64, count2: u64, frequency_hz: u64)
    requires
        frequency_hz != 0,
        count1 <= count2,
    ensures
        ticks_to_ns_spec(count1 as int, frequency_hz as int) <= ticks_to_ns_spec(
            count2 as int,
            frequency_hz as int,
        ),
{
    let n = NANOS_PER_SECOND as int;
    lemma_mul_inequality(count1 as int, count2 as int, n);
    lemma_div_is_ordered(count1 * n, count2 * n, frequency_hz as int);
}

/// One second converts to exactly `frequency_hz` ticks.
pub proof fn lemma_one_second_is_frequency(frequency_hz: u64)
    requires
        frequency_hz != 0,
    ensures
        ns_to_ticks_spec(NANOS_PER_SECOND as int, frequency_hz as int) == frequency_hz,
{
    let n = NANOS_PER_SECOND as int;
    let f = frequency_hz as int;
    lemma_mul_is_commutative(n, f);
    lemma_fundamental_div_mod_converse_div(n * f + n - 1, n, f, n - 1);
}

/// Before saturation, `ns_to_ticks` is the ceiling of `ns * freq / 1e9`:
/// the least tick count whose length in nanosecond-hertz covers
/// `ns * freq`.
pub proof fn lemma_ns_to_ticks_is_ceiling(ns: u64, frequency_hz: u64)
    requires
        frequency_hz != 0,
    ensures
        ({
            let t = (ns * frequency_hz + NANOS_PER_SECOND - 1) / (NANOS_PER_SECOND as int);
            &&& t * NANOS_PER_SECOND >= ns * frequency_hz
            &&& (t - 1) * NANOS_PER_SECOND < ns * frequency_hz
            &&& ns_to_ticks_spec(ns as int, frequency_hz as int) == saturate(t)
        }),
{
    let n = NANOS_PER_SECOND as int;
    let x = ns * frequency_hz + n - 1;
    let t = x / n;
    lemma_fundamental_div_mod(x, n);
    assert(x == n * t + x % n);
    lemma_mul_is_commutative(n, t);
    assert((t - 1) * n == t * n - n) by (nonlinear_arith);
}

/// A deadline converted to ticks, and back to nanoseconds, reaches or
/// exceeds the deadline, and one tick fewer would fall short of it: the
/// tick count is the least that reaches the deadline, as long as it did
/// not saturate.
pub proof fn lemma_ns_to_ticks_reaches_deadline(ns: u64, frequency_hz: u64)
    requires
        frequency_hz != 0,
        (ns * frequency_hz + NANOS_PER_SECOND - 1) / (NANOS_PER_SECOND as int) <= u64::MAX,
    ensures
        ticks_to_ns_spec(ns_to_ticks_spec(ns as int, frequency_hz as int), frequency_hz as int)
            >= ns,
        ns_to_ticks_spec(ns as int, frequency_hz as int) > 0 ==> ticks_to_ns_spec(
            ns_to_ticks_spec(ns as int, frequency_hz as int) - 1,
            frequency_hz as int,
        ) < ns,
{
    let n = NANOS_PER_SECOND as int;
    let f = frequency_hz as int;
    let x = ns * f + n - 1;
    let t = x / n;
    lemma_fundamental_div_mod(x, n);
    assert(x == n * t + x % n);
    assert(0 <= x % n < n);
    lemma_mul_is_commutative(n, t);
    assert(t * n >= ns * f);
    lemma_div_is_ordered(ns * f, t * n, f);
    lemma_mul_is_commutative(ns as int, f);
    lemma_div_multiples_vanish(ns as int, f);
    assert(ns_to_ticks_spec(ns as int, f) == t);
    if t > 0 {
        // (t - 1) * n <= ns * f - 1, so its quotient by f is below ns.
        assert((t - 1) * n == t * n - n) by (nonlinear_arith);
        assert((t - 1) * n <= ns * f - 1);
        assert(ns * f >= 1);
        assert(ns >= 1) by (nonlinear_arith)
            requires
                ns * f >= 1,
                f > 0,
                ns >= 0,
        ;
        lemma_div_is_ordered((t - 1) * n, ns * f - 1, f);
        assert((ns - 1) * f + (f - 1) == ns * f - 1) by (nonlinear_arith);
        lemma_fundamental_div_mod_converse_div(ns * f - 1, f, ns - 1, f - 1);
        assert(0 <= (t - 1) * n) by (nonlinear_arith)
            requires
                t >= 1,
                n > 0,
        ;
    }
}

/// At frequencies up to 1 GHz, ticks converted to nanoseconds and back
/// give the same ticks, as long as the nanoseconds did not saturate.
pub proof fn lemma_round_trip_up_to_one_gigahertz(count: u64, frequency_hz: u64)
    requires
        0 < frequency_hz <= NANOS_PER_SECOND,
        count * NANOS_PER_SECOND / (frequency_hz as int) <= u64::MAX,
    ensures
        ns_to_ticks_spec(ticks_to_ns_spec(count as int, frequency_hz as int), frequency_hz as int)
            == count,
{
    let n = NANOS_PER_SECOND as int;
    let f = frequency_hz as int;
    let c = count as int;
    let x = c * n;
    let ns = x / f;
    let r = x % f;
    lemma_fundamental_div_mod(x, f);
    assert(x == f * ns + r);
    assert(0 <= r < f);
    assert(ticks_to_ns_spec(c, f) == ns);
    lemma_mul_is_commutative(f, ns);
    assert(ns * f == x - r);
    lemma_mul_is_commutative(c, n);
    lemma_fundamental_div_mod_converse_div(ns * f + n - 1, n, c, n - 1 - r);
}

} // verus!
