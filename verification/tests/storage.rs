use quotamiser::error::LedgerError;
use quotamiser::hwm::{fnv1a, parse, render, ExternalHwm, HighWaterMark};
use quotamiser::lock::PoolLock;

#[test]
fn round_trips() {
    let mark = HighWaterMark {
        generation: 7,
        cumulative_liability: 128_000,
        last_reservation: 42,
    };
    assert_eq!(parse(&render(mark)), Ok(mark));
}

#[test]
fn a_corrupted_record_is_an_error_not_absence() {
    let text = render(HighWaterMark {
        generation: 1,
        cumulative_liability: 10,
        last_reservation: 1,
    })
    .replace(" 10 ", " 99 ");
    assert!(matches!(parse(&text), Err(LedgerError::Integrity(_))));
}

#[test]
fn missing_record_reads_as_none() {
    assert_eq!(ExternalHwm::read(None), Ok(None));
}

#[test]
fn a_stored_record_is_read_back_or_refused() {
    let mark = HighWaterMark {
        generation: 7,
        cumulative_liability: 128_000,
        last_reservation: 42,
    };
    let line = render(mark);
    assert_eq!(ExternalHwm::read(Some(&line)), Ok(Some(mark)));
    for changed in ["", " ", &line[1..], &line[..line.len() - 2], &line.replace('7', "8")] {
        assert!(
            matches!(ExternalHwm::read(Some(changed)), Err(LedgerError::Integrity(_))),
            "{changed:?}"
        );
    }
}

#[test]
fn extreme_marks_round_trip() {
    for n in [0, 1, i64::MAX] {
        for last_reservation in [i64::MIN, -1, 0, i64::MAX] {
            let mark = HighWaterMark {
                generation: n,
                cumulative_liability: n,
                last_reservation,
            };
            assert_eq!(parse(&render(mark)), Ok(mark));
        }
    }
    let negative = HighWaterMark {
        generation: -1,
        cumulative_liability: 0,
        last_reservation: 0,
    };
    assert!(matches!(
        parse(&render(negative)),
        Err(LedgerError::Integrity(_))
    ));
}

#[test]
fn a_record_of_another_shape_is_refused() {
    for text in ["", "\n", "quotamiser-hwm v1", "quotamiser-hwm v2 1 1 1 0000000000000000"] {
        assert!(matches!(parse(text), Err(LedgerError::Integrity(_))));
    }
}

#[test]
fn the_checksum_is_fnv_1a() {
    assert_eq!(fnv1a(b""), 0xcbf2_9ce4_8422_2325);
    assert_eq!(fnv1a(b"a"), 0xaf63_dc4c_8601_ec8c);
    assert_eq!(fnv1a(b"foobar"), 0x8594_4171_f739_67e8);
}

#[test]
fn a_record_remembers_where_it_is_kept() {
    assert_eq!(ExternalHwm::new("state/hwm".into()).path(), "state/hwm");
}

#[test]
fn identity_is_not_confused_by_sanitisation() {
    let dir = "locks";
    assert_ne!(
        PoolLock::path_for(dir, "org", "a:b"),
        PoolLock::path_for(dir, "org", "a_b")
    );
}

#[test]
fn a_lock_is_where_its_pool_says() {
    let lock = PoolLock::new("locks", "org-a", "openai:large");
    assert_eq!(
        lock.path(),
        PoolLock::path_for("locks", "org-a", "openai:large")
    );
    assert!(lock.path().starts_with("locks/org-a__openai_large"));
    assert_ne!(
        lock.path(),
        PoolLock::path_for("locks", "org-a", "openai:small")
    );
}
