use tyrne::hal::timer::{ns_to_ticks, resolution_ns_for_freq, ticks_to_ns, NANOS_PER_SECOND};

// ── ticks_to_ns ──────────────────────────────────────────────────────────

#[test]
fn ticks_to_ns_zero_count_is_zero() {
    assert_eq!(ticks_to_ns(0, 62_500_000), 0);
}

#[test]
fn ticks_to_ns_qemu_virt_one_second() {
    // 62.5 MHz × 1 second = 62_500_000 ticks → exactly 1e9 ns.
    assert_eq!(ticks_to_ns(62_500_000, 62_500_000), NANOS_PER_SECOND,);
}

#[test]
fn ticks_to_ns_qemu_virt_single_tick() {
    // 1 tick at 62.5 MHz = 16 ns (exact, since 62.5 MHz divides 1e9).
    assert_eq!(ticks_to_ns(1, 62_500_000), 16);
}

#[test]
fn ticks_to_ns_pi3_class_non_divisor() {
    // 19.2 MHz: 1 tick true period 52.0833… ns. floor → 52 ns; this
    // documents that ticks_to_ns truncates per-tick, but the multi-
    // tick form is exact at the second boundary because the u128 mul
    // happens before the divide.
    assert_eq!(ticks_to_ns(1, 19_200_000), 52);
    assert_eq!(ticks_to_ns(19_200_000, 19_200_000), NANOS_PER_SECOND);
}

#[test]
fn ticks_to_ns_high_frequency_one_gigahertz() {
    // 1 GHz → 1 tick = 1 ns exactly.
    assert_eq!(ticks_to_ns(1, 1_000_000_000), 1);
    assert_eq!(ticks_to_ns(123_456_789, 1_000_000_000), 123_456_789);
}

#[test]
fn ticks_to_ns_saturates_at_u64_max() {
    // u64::MAX ticks at 1 Hz would be u64::MAX seconds → vastly more
    // than u64::MAX ns. Saturate, not wrap.
    assert_eq!(ticks_to_ns(u64::MAX, 1), u64::MAX);
}

#[test]
fn ticks_to_ns_no_silent_wrap_at_64bit_boundary() {
    // count = u64::MAX / NANOS_PER_SECOND + 1 is the smallest count
    // that triggers saturation at 1 Hz. Verify it returns u64::MAX
    // rather than wrapping. (u64::MAX / 1e9 ≈ 1.844e10.)
    let just_over = (u64::MAX / NANOS_PER_SECOND) + 1;
    assert_eq!(ticks_to_ns(just_over, 1), u64::MAX);
}

#[test]
fn ticks_to_ns_const_fn_works_in_const_context() {
    // Evaluates the conversion for the QEMU virt frequency.
    let ns: u64 = ticks_to_ns(62_500_000, 62_500_000);
    assert_eq!(ns, NANOS_PER_SECOND);
}

// ── resolution_ns_for_freq ───────────────────────────────────────────────

#[test]
fn resolution_qemu_virt_is_16_ns() {
    assert_eq!(resolution_ns_for_freq(62_500_000), 16);
}

#[test]
fn resolution_one_gigahertz_is_one_ns() {
    assert_eq!(resolution_ns_for_freq(1_000_000_000), 1);
}

#[test]
fn resolution_round_to_nearest_for_non_divisor() {
    // 19.2 MHz: 1e9 / 19_200_000 = 52.0833… → rounded-to-nearest = 52.
    assert_eq!(resolution_ns_for_freq(19_200_000), 52);
    // 54 MHz (BCM2711 generic-timer rate per mainline Linux):
    // 1e9 / 54_000_000 = 18.5185… → rounded-to-nearest = 19.
    assert_eq!(resolution_ns_for_freq(54_000_000), 19);
}

#[test]
fn resolution_floor_vs_round_difference_documented() {
    // 33_333_333 Hz: floor = 30, round-to-nearest = 30 (true value
    // 30.000000300000003... → still 30). This test is here to lock
    // the rounding policy: if a future change accidentally switched
    // from round-to-nearest to floor, the QEMU virt and 1 GHz cases
    // above would still pass (both are exact divisors). This case
    // and the 19.2 MHz case above are the discriminating ones.
    assert_eq!(resolution_ns_for_freq(33_333_333), 30);
}

#[test]
fn resolution_const_fn_works_in_const_context() {
    let res: u64 = resolution_ns_for_freq(62_500_000);
    assert_eq!(res, 16);
}

#[test]
fn resolution_clamps_to_one_above_2ghz() {
    // Naive formula `(1e9 + freq/2) / freq` truncates to 0 for
    // freq > 2 * NANOS_PER_SECOND. The clamp makes the floor 1 ns
    // — the smallest representable resolution at nanosecond unit.
    // 3 GHz: true period ≈ 0.333 ns → clamped to 1 ns.
    assert_eq!(resolution_ns_for_freq(3_000_000_000), 1);
    // 10 GHz: true period 0.1 ns → still clamped to 1 ns.
    assert_eq!(resolution_ns_for_freq(10_000_000_000), 1);
    // u64::MAX Hz: even more extreme → clamped to 1 ns.
    assert_eq!(resolution_ns_for_freq(u64::MAX), 1);
}

#[test]
fn resolution_two_ghz_is_one_ns_exactly() {
    // Boundary case: exactly 2 GHz gives raw = 1 ns (no clamp
    // needed). (1e9 + 1e9) / 2e9 = 1.
    assert_eq!(resolution_ns_for_freq(2_000_000_000), 1);
}

// ── Property-style monotonicity guards ──────────────────────────────────────

/// Sweep increasing tick counts and assert `ticks_to_ns` never
/// decreases. This locks the trait-level monotonicity guarantee
/// against future regressions — `wrapping_mul` would silently
/// fail this; `saturating_mul` (the chosen behaviour) passes it.
/// Run for representative frequencies (1 Hz extreme, QEMU virt
/// 62.5 MHz, Pi-3-class 19.2 MHz, 1 GHz). Lightweight: ≤ 200
/// samples per frequency, all on the host.
#[test]
fn ticks_to_ns_is_monotonic_across_frequencies() {
    for &freq in &[1, 19_200_000, 62_500_000, 1_000_000_000_u64] {
        let mut prev = 0;
        // Step pattern that exercises both small counts and the
        // saturation neighbourhood — geometric progression with
        // a final value past the saturation boundary at freq=1.
        for &count in &[
            0,
            1,
            100,
            10_000,
            1_000_000,
            100_000_000,
            10_000_000_000,
            1_000_000_000_000,
            u64::MAX / 2,
            u64::MAX,
        ] {
            let now = ticks_to_ns(count, freq);
            assert!(
                now >= prev,
                "monotonicity violated at freq={freq}, count={count}: \
                 prev={prev}, now={now}"
            );
            prev = now;
        }
    }
}

/// Confirm that the saturation branch fires at `u64::MAX` for at
/// least one realistic frequency, and that successive calls past
/// that point all return `u64::MAX` (no wrap to 0). Pairs with
/// `ticks_to_ns_saturates_at_u64_max` above; this version tests
/// the *plateau* property rather than just the single value.
#[test]
fn ticks_to_ns_plateaus_at_u64_max_after_saturation() {
    // At 1 Hz, u64::MAX ticks = u64::MAX seconds = vastly more than
    // u64::MAX ns. Any count past the saturation boundary returns
    // u64::MAX; further increases stay at u64::MAX (plateau).
    let just_over = u64::MAX / NANOS_PER_SECOND + 1;
    let way_over = u64::MAX / 2;
    let max = u64::MAX;
    assert_eq!(ticks_to_ns(just_over, 1), u64::MAX);
    assert_eq!(ticks_to_ns(way_over, 1), u64::MAX);
    assert_eq!(ticks_to_ns(max, 1), u64::MAX);
    // Plateau holds: saturated value never decreases as count grows.
    assert!(ticks_to_ns(way_over, 1) >= ticks_to_ns(just_over, 1));
    assert!(ticks_to_ns(max, 1) >= ticks_to_ns(way_over, 1));
}


#[test]
fn ns_to_ticks_zero_ns_is_zero() {
    assert_eq!(ns_to_ticks(0, 62_500_000), 0);
}

#[test]
fn ns_to_ticks_rounds_up_on_subtick() {
    // Locks the ceiling-rounding policy documented in the
    // `# Rounding` doc-section: any sub-tick remainder must round
    // *up* so the comparator's tick-equivalent is ≥ deadline_ns.
    // freq = 3 Hz means one tick = NANOS_PER_SECOND / 3 =
    // 333_333_333.333… ns; ns = 333_333_333 sits exactly on tick 1
    // (down) and ns = 333_333_334 is 1 ns past it, so the ceiling
    // tick count is 2. A floor-division regression would return 1
    // here and silently violate the "reaches or exceeds
    // deadline_ns" half of the timer contract.
    assert_eq!(ns_to_ticks(333_333_334, 3), 2);
    // Boundary check: exactly on the first tick stays at 1 tick.
    assert_eq!(ns_to_ticks(333_333_333, 3), 1);
}

#[test]
fn ns_to_ticks_round_trips_against_ticks_to_ns_at_qemu_frequency() {
    // QEMU virt is 62.5 MHz; pick a tick count that is exactly
    // representable in ns (the inverse uses integer truncation,
    // so non-divisor frequencies introduce a small drift —
    // tested separately).
    let qemu_freq = 62_500_000;
    let count = 1_234_567;
    let ns = ticks_to_ns(count, qemu_freq);
    let round_trip_ticks = ns_to_ticks(ns, qemu_freq);
    assert_eq!(round_trip_ticks, count);
}

#[test]
fn ns_to_ticks_one_second_yields_frequency_at_any_freq() {
    // 1 second = `frequency_hz` ticks, exactly, for any non-zero
    // frequency.
    for &freq in &[1u64, 1_000, 19_200_000, 62_500_000, 1_000_000_000] {
        assert_eq!(ns_to_ticks(NANOS_PER_SECOND, freq), freq);
    }
}

#[test]
fn ns_to_ticks_saturates_at_u64_max() {
    // ns close to u64::MAX with a high frequency overflows the
    // u128 intermediate's u64 result; the function must saturate
    // rather than wrap.
    let huge_ns = u64::MAX;
    let high_freq = 1_000_000_000;
    assert_eq!(ns_to_ticks(huge_ns, high_freq), u64::MAX);

    // Exercise the saturation *branch* (not just the boundary):
    // pick a frequency strictly greater than NANOS_PER_SECOND so
    // the u128 quotient `ceil(ns * freq / 1e9)` exceeds u64::MAX
    // and the `if ticks > u64::MAX as u128` branch executes.
    let over_boundary_freq = 1_000_000_001;
    assert_eq!(ns_to_ticks(huge_ns, over_boundary_freq), u64::MAX);
    // Also verify the maximum possible frequency saturates.
    assert_eq!(ns_to_ticks(huge_ns, u64::MAX), u64::MAX);
}


// Own tests.

#[test]
fn ns_to_ticks_reaches_or_exceeds_the_deadline() {
    for &freq in &[3u64, 19_200_000, 62_500_000, 1_000_000_000] {
        for &ns in &[1u64, 17, 333_333_334, 1_000_000_007, 123_456_789_012] {
            let ticks = ns_to_ticks(ns, freq);
            assert!(ticks_to_ns(ticks, freq) >= ns);
        }
    }
}

#[test]
fn ns_to_ticks_is_the_least_tick_that_reaches_the_deadline() {
    for &freq in &[3u64, 19_200_000, 62_500_000, 1_000_000_000] {
        for &ns in &[1u64, 17, 333_333_334, 1_000_000_007, 123_456_789_012] {
            let ticks = ns_to_ticks(ns, freq);
            assert!(ticks > 0);
            assert!(ticks_to_ns(ticks - 1, freq) < ns);
        }
    }
    assert_eq!(ns_to_ticks(333_333_334, 3), 2);
    assert_eq!(ticks_to_ns(1, 3), 333_333_333);
}

#[test]
fn round_trip_exact_at_one_gigahertz() {
    let freq = 1_000_000_000;
    for &count in &[0u64, 1, 999, 123_456_789_012] {
        assert_eq!(ns_to_ticks(ticks_to_ns(count, freq), freq), count);
    }
}

#[test]
fn resolution_is_never_zero() {
    for &freq in &[1u64, 2, 1_999_999_999, 2_000_000_001, u64::MAX] {
        assert!(resolution_ns_for_freq(freq) >= 1);
    }
    assert_eq!(resolution_ns_for_freq(1), NANOS_PER_SECOND);
}

#[test]
fn ns_to_ticks_exact_values() {
    assert_eq!(ns_to_ticks(16, 62_500_000), 1);
    assert_eq!(ns_to_ticks(17, 62_500_000), 2);
    assert_eq!(ns_to_ticks(1, 1), 1);
}

#[test]
fn round_trip_holds_at_non_divisor_frequencies() {
    for &freq in &[3u64, 19_200_000, 54_000_000, 33_333_333] {
        for &count in &[0u64, 1, 7, 19_200_001, 987_654_321] {
            assert_eq!(ns_to_ticks(ticks_to_ns(count, freq), freq), count);
        }
    }
}

#[test]
fn round_trip_can_lose_ticks_above_one_gigahertz() {
    assert_eq!(ticks_to_ns(1, 3_000_000_000), 0);
    assert_eq!(ns_to_ticks(ticks_to_ns(1, 3_000_000_000), 3_000_000_000), 0);
}
