use std::time::Duration;

use quotamiser::rate_limit::{parse_reset, Headers, RateLimitGate, MAX_BACKOFF, MIN_BACKOFF};

const SECOND: u64 = 1_000_000_000;

fn headers(pairs: &[(&str, &str)]) -> Headers {
    Headers {
        entries: pairs
            .iter()
            .map(|(name, value)| (name.to_string(), Some(value.to_string())))
            .collect(),
    }
}

fn nanos(duration: Duration) -> Option<u128> {
    Some(duration.as_nanos())
}

#[test]
fn reset_durations_parse() {
    assert_eq!(parse_reset("1s"), nanos(Duration::from_secs(1)));
    assert_eq!(parse_reset("120ms"), nanos(Duration::from_millis(120)));
    assert_eq!(parse_reset("6m0s"), nanos(Duration::from_secs(360)));
    assert_eq!(
        parse_reset("1h2m3.5s"),
        nanos(Duration::from_secs_f64(3723.5))
    );
    assert_eq!(parse_reset("0s"), nanos(Duration::ZERO));
    for bad in ["", "soon", "5", "s5", "1x", "--1s"] {
        assert_eq!(parse_reset(bad), None, "{bad:?}");
    }
}

#[test]
fn a_reset_duration_is_rounded_once() {
    assert_eq!(parse_reset("0.0000000004s0.0000000004s"), Some(1));
    assert_eq!(parse_reset("0.0000000004s"), Some(0));
    assert_eq!(parse_reset("0.0000006ms0.0000006ms"), Some(1));
    // The even one of two that are as near.
    for text in ["0.0009765625", "0.0029296875"] {
        let value: f64 = text.parse().unwrap();
        assert_eq!(
            parse_reset(&format!("{text}s")),
            nanos(Duration::from_secs_f64(value))
        );
    }
    assert_eq!(parse_reset("0.0009765625s"), Some(976_562));
    assert_eq!(parse_reset("0.0029296875s"), Some(2_929_688));
}

#[test]
fn reset_durations_take_a_point_anywhere_but_only_one() {
    assert_eq!(parse_reset(" .5s\t"), Some(500_000_000));
    assert_eq!(parse_reset("5.s"), Some(5_000_000_000));
    assert_eq!(parse_reset("0.001ms"), Some(1_000));
    assert_eq!(parse_reset("."), None);
    assert_eq!(parse_reset(".s"), None);
    assert_eq!(parse_reset("1.2.3s"), None);
    assert_eq!(parse_reset("1s 2s"), None);
    assert_eq!(
        parse_reset("18446744073709551615s"),
        Some(18_446_744_073_709_551_615_000_000_000)
    );
    assert_eq!(parse_reset("18446744073709551616s"), None);
}

#[test]
fn a_rate_limit_closes_the_gate_until_the_longest_reset() {
    let mut limiter = RateLimitGate::new();
    let now = 7 * SECOND;
    assert_eq!(limiter.closed_for(now), None);
    limiter.record_rate_limited(
        &headers(&[
            ("x-ratelimit-reset-requests", "120ms"),
            ("x-ratelimit-reset-tokens", "6s"),
        ]),
        now,
    );
    assert_eq!(limiter.closed_for(now), Some(6 * SECOND));
    assert_eq!(limiter.closed_for(now + 6 * SECOND), None);
}

#[test]
fn a_rate_limit_without_timing_closes_for_the_minimum() {
    let mut limiter = RateLimitGate::new();
    let now = 7 * SECOND;
    limiter.record_rate_limited(&headers(&[]), now);
    assert_eq!(limiter.closed_for(now), Some(MIN_BACKOFF));
}

#[test]
fn retry_after_counts_and_the_wait_is_capped() {
    let mut limiter = RateLimitGate::new();
    let now = 7 * SECOND;
    limiter.record_rate_limited(&headers(&[("retry-after", "86400")]), now);
    assert_eq!(limiter.closed_for(now), Some(MAX_BACKOFF));
}

#[test]
fn an_exhausted_window_closes_the_gate_before_any_429() {
    let mut limiter = RateLimitGate::new();
    let now = 7 * SECOND;
    limiter.record_headers(
        &headers(&[
            ("x-ratelimit-remaining-requests", "12"),
            ("x-ratelimit-remaining-tokens", "0"),
            ("x-ratelimit-reset-tokens", "2s"),
        ]),
        now,
    );
    assert_eq!(limiter.closed_for(now), Some(2 * SECOND));
}

#[test]
fn remaining_capacity_leaves_the_gate_open() {
    let mut limiter = RateLimitGate::new();
    let now = 7 * SECOND;
    limiter.record_headers(
        &headers(&[
            ("x-ratelimit-remaining-requests", "499"),
            ("x-ratelimit-remaining-tokens", "500000"),
            ("x-ratelimit-reset-tokens", "0s"),
        ]),
        now,
    );
    assert_eq!(limiter.closed_for(now), None);
}

#[test]
fn a_shorter_signal_never_reopens_the_gate_early() {
    let mut limiter = RateLimitGate::new();
    let now = 7 * SECOND;
    limiter.record_rate_limited(&headers(&[("retry-after", "30")]), now);
    limiter.record_rate_limited(&headers(&[("retry-after", "2")]), now);
    assert_eq!(limiter.closed_for(now), Some(30 * SECOND));
}

#[test]
fn a_429_closes_for_the_longest_wait_within_bounds() {
    let now = 7 * SECOND;
    for (signals, expected) in [
        (&[][..], SECOND),
        (&[("retry-after", "0")][..], SECOND),
        (&[("retry-after", "later")][..], SECOND),
        (&[("retry-after", "4"), ("x-ratelimit-reset-requests", "6s")][..], 6 * SECOND),
        (&[("retry-after", "9"), ("x-ratelimit-reset-tokens", "6s")][..], 9 * SECOND),
        (&[("x-ratelimit-reset-tokens", "2h")][..], 300 * SECOND),
    ] {
        let mut gate = RateLimitGate::new();
        gate.record_rate_limited(&headers(signals), now);
        assert_eq!(gate.closed_for(now), Some(expected), "{signals:?}");
        // A shorter one later does not reopen it early.
        gate.record_rate_limited(&headers(&[("retry-after", "1")]), now);
        assert_eq!(gate.closed_for(now), Some(expected), "{signals:?}");
    }
}
