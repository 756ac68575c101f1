use quotamiser::epoch::{
    end_of, epoch_of, window, ClockPolicy, ClosedReason, PolicyError, TrustedReading, Window,
    SECONDS_PER_DAY,
};

const DAY: i64 = SECONDS_PER_DAY;
const D: i64 = 20_342; // an arbitrary day

fn policy() -> ClockPolicy {
    ClockPolicy::new(5, 300, 600).unwrap()
}

/// A reading taken exactly at `true_now` with no error or elapsed time.
fn at(true_now: i64) -> Option<TrustedReading> {
    Some(TrustedReading {
        upstream_unix: true_now,
        local_unix: 1_000,
    })
}

fn decide(true_now: i64) -> Window {
    window(&policy(), D, 1_000, at(true_now))
}

#[test]
fn mid_day_is_open() {
    assert_eq!(decide(D * DAY + 12 * 3_600), Window::Open);
}

#[test]
fn closes_before_the_boundary_by_the_reading_uncertainty() {
    assert_eq!(decide(end_of(D) - 6), Window::Open);
    assert_eq!(
        decide(end_of(D) - 5),
        Window::Closed(ClosedReason::NearBoundary)
    );
}

#[test]
fn stays_closed_through_the_opening_delay() {
    assert_eq!(
        decide(end_of(D) + 120),
        Window::Closed(ClosedReason::NearBoundary)
    );
    assert_eq!(
        decide(end_of(D) + 304),
        Window::Closed(ClosedReason::NearBoundary)
    );
    assert_eq!(
        decide(end_of(D) + 305),
        Window::RolloverDue { epoch: D + 1 }
    );
}

#[test]
fn several_missed_days_roll_over_to_the_latest_opened_day() {
    assert_eq!(
        decide(end_of(D + 2) + 3_600),
        Window::RolloverDue { epoch: D + 3 }
    );
    assert_eq!(
        decide(end_of(D + 2) + 60),
        Window::RolloverDue { epoch: D + 2 }
    );
}

#[test]
fn without_fresh_trusted_time_nothing_is_open() {
    assert_eq!(
        window(&policy(), D, 1_000, None),
        Window::Closed(ClosedReason::NoTrustedTime)
    );
    let stale = TrustedReading {
        upstream_unix: D * DAY + 3_600,
        local_unix: 1_000,
    };
    assert_eq!(
        window(&policy(), D, 1_601, Some(stale)),
        Window::Closed(ClosedReason::NoTrustedTime)
    );
    assert_eq!(
        window(&policy(), D, 999, Some(stale)),
        Window::Closed(ClosedReason::ClockWentBackwards)
    );
}

#[test]
fn unsafe_policies_are_refused() {
    assert_eq!(
        ClockPolicy::new(0, 300, 600),
        Err(PolicyError::UncertaintyTooSmall)
    );
    assert_eq!(
        ClockPolicy::new(5, 299, 600),
        Err(PolicyError::OpenDelayTooShort)
    );
    assert_eq!(
        ClockPolicy::new(5, 300, 0),
        Err(PolicyError::ReadingAgeOutOfRange)
    );
    assert_eq!(
        ClockPolicy::new(5, 300, 3_601),
        Err(PolicyError::ReadingAgeOutOfRange)
    );
}

/// For readings off by up to the stated uncertainty and as old as allowed:
/// the old day is never open once upstream has reset, and a new day is never
/// reported due before upstream has reached it plus the opening delay.
#[test]
fn never_spends_across_the_reset_and_never_opens_early() {
    for current in (D - 1)..(D + 4) {
        for step in 0..(5 * 144) {
            let true_now = (D - 1) * DAY + step * 600 + (step % 7) * 11;
            for error in [-5i64, 0, 5] {
                for elapsed in [0i64, 1, 300, 600] {
                    let reading = TrustedReading {
                        upstream_unix: true_now - elapsed + error,
                        local_unix: true_now - elapsed - 777,
                    };
                    let decision = window(&policy(), current, true_now - 777, Some(reading));
                    if true_now >= end_of(current) {
                        assert_ne!(decision, Window::Open);
                    }
                    if let Window::RolloverDue { epoch } = decision {
                        assert!(epoch > current);
                        assert!(epoch * DAY + policy().open_delay() <= true_now);
                    }
                }
            }
        }
    }
}

#[test]
fn days_before_the_first_are_counted_down() {
    assert_eq!(epoch_of(0), 0);
    assert_eq!(epoch_of(DAY - 1), 0);
    assert_eq!(epoch_of(DAY), 1);
    assert_eq!(epoch_of(-1), -1);
    assert_eq!(epoch_of(-DAY), -1);
    assert_eq!(epoch_of(-DAY - 1), -2);
    assert_eq!(end_of(0), DAY);
    assert_eq!(end_of(-1), 0);
}

#[test]
fn a_policy_says_what_it_was_made_with() {
    assert_eq!(policy().reading_uncertainty(), 5);
    assert_eq!(policy().open_delay(), 300);
    assert_eq!(
        PolicyError::OpenDelayTooShort.message(),
        "the opening delay must be at least 300 seconds"
    );
}
