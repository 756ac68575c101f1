use quotamiser::clock::{ClockError, TrustedClock};
use quotamiser::epoch::{epoch_of, TrustedReading};

const DATE: &str = "Fri, 11 Sep 2026 00:00:05 GMT";

#[test]
fn the_provider_date_header_is_the_reading() {
    let mut clock = TrustedClock::new();
    let reading = clock.refresh(200, Some(DATE), 1_000).unwrap();
    assert_eq!(reading.upstream_unix, 1_789_084_805);
    assert_eq!(epoch_of(reading.upstream_unix), 20_707);
    assert_eq!(clock.last_reading(), Some(reading));
}

#[test]
fn an_unsuccessful_answer_is_not_a_time_source() {
    let mut clock = TrustedClock::new();
    assert!(matches!(
        clock.refresh(401, Some(DATE), 1_000),
        Err(ClockError::Status(401))
    ));
    assert_eq!(clock.last_reading(), None);
}

#[test]
fn a_garbled_date_is_refused() {
    let mut clock = TrustedClock::new();
    assert!(matches!(
        clock.refresh(200, Some("yesterday"), 1_000),
        Err(ClockError::NoDate)
    ));
    assert!(matches!(
        clock.refresh(200, None, 1_000),
        Err(ClockError::NoDate)
    ));
}

#[test]
fn trusted_time_moves_with_the_monotonic_clock() {
    let mut clock = TrustedClock::new();
    assert_eq!(clock.trusted_now(1_000), None);
    clock.refresh(200, Some(DATE), 1_000).unwrap();
    assert_eq!(clock.trusted_now(1_000), Some(1_789_084_805));
    assert_eq!(clock.trusted_now(1_060), Some(1_789_084_865));
    // A failed re-reading keeps the last one.
    assert!(clock.refresh(503, Some(DATE), 1_070).is_err());
    assert_eq!(clock.trusted_now(1_070), Some(1_789_084_875));
}

#[test]
fn times_past_the_last_timestamp_are_not_told() {
    let mut clock = TrustedClock::new();
    assert_eq!(
        clock.take(200, Some(u64::MAX), 0),
        Err(ClockError::NoDate)
    );
    let last = i64::MAX as u64;
    assert_eq!(
        clock.take(200, Some(last), 0),
        Ok(TrustedReading {
            upstream_unix: i64::MAX,
            local_unix: 0
        })
    );
    assert_eq!(clock.trusted_now(0), Some(i64::MAX));
    assert_eq!(clock.trusted_now(1), None);
}
