use quotamiser::failure_breaker::{BreakerPolicy, FailureBreaker};

const SECOND: u64 = 1_000_000_000;

fn breaker() -> FailureBreaker {
    FailureBreaker::new(BreakerPolicy {
        threshold: 3,
        initial_cooldown: 30 * SECOND,
        max_cooldown: 100 * SECOND,
    })
}

#[test]
fn the_default_policy_opens_after_three_for_thirty_seconds() {
    let policy = BreakerPolicy::default();
    assert_eq!(policy.threshold, 3);
    assert_eq!(policy.initial_cooldown, 30 * SECOND);
    assert_eq!(policy.max_cooldown, 600 * SECOND);
}

#[test]
fn it_opens_at_the_threshold() {
    let mut breaker = breaker();
    let now = 5 * SECOND;
    breaker.record_ambiguous_failure(now);
    breaker.record_ambiguous_failure(now);
    assert_eq!(breaker.open_for(now), None);
    breaker.record_ambiguous_failure(now);
    assert_eq!(breaker.open_for(now), Some(30 * SECOND));
    assert_eq!(breaker.open_for(now + 30 * SECOND), None);
}

#[test]
fn a_completion_between_failures_keeps_it_closed() {
    let mut breaker = breaker();
    let now = 5 * SECOND;
    for _ in 0..10 {
        breaker.record_ambiguous_failure(now);
        breaker.record_ambiguous_failure(now);
        breaker.record_completion();
    }
    assert_eq!(breaker.open_for(now), None);
}

#[test]
fn failing_again_after_the_cooldown_reopens_it_for_longer() {
    let mut breaker = breaker();
    let mut now = 5 * SECOND;
    for _ in 0..3 {
        breaker.record_ambiguous_failure(now);
    }
    now += 30 * SECOND;
    assert_eq!(breaker.open_for(now), None);

    breaker.record_ambiguous_failure(now);
    assert_eq!(breaker.open_for(now), Some(60 * SECOND));
    now += 60 * SECOND;
    breaker.record_ambiguous_failure(now);
    assert_eq!(breaker.open_for(now), Some(100 * SECOND), "capped");
}

#[test]
fn failures_while_open_do_not_extend_it() {
    let mut breaker = breaker();
    let now = 5 * SECOND;
    for _ in 0..3 {
        breaker.record_ambiguous_failure(now);
    }
    for _ in 0..5 {
        breaker.record_ambiguous_failure(now + SECOND);
    }
    assert_eq!(breaker.open_for(now), Some(30 * SECOND));
}

#[test]
fn a_completion_resets_the_cooldown() {
    let mut breaker = breaker();
    let mut now = 5 * SECOND;
    for _ in 0..3 {
        breaker.record_ambiguous_failure(now);
    }
    now += 30 * SECOND;
    breaker.record_ambiguous_failure(now);
    now += 60 * SECOND;
    breaker.record_completion();
    for _ in 0..3 {
        breaker.record_ambiguous_failure(now);
    }
    assert_eq!(breaker.open_for(now), Some(30 * SECOND));
}

#[test]
fn a_breaker_follows_its_history() {
    let mut breaker = breaker();
    let mut now = 5 * SECOND;
    for _ in 0..2 {
        // Three failures open it; the ones while it is open change nothing.
        for _ in 0..5 {
            breaker.record_ambiguous_failure(now);
        }
        assert_eq!(breaker.open_for(now), Some(30 * SECOND));
        for cooldown in [30, 60, 100, 100] {
            assert_eq!(breaker.open_for(now), Some(cooldown * SECOND));
            breaker.record_ambiguous_failure(now + SECOND);
            assert_eq!(breaker.open_for(now), Some(cooldown * SECOND));
            now += cooldown * SECOND;
            assert_eq!(breaker.open_for(now), None);
            breaker.record_ambiguous_failure(now);
        }
        // A completion starts over, but an open breaker stays open.
        breaker.record_completion();
        assert_eq!(breaker.open_for(now), Some(100 * SECOND));
        now += 100 * SECOND;
    }
}
