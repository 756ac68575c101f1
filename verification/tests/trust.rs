use quotamiser::hwm::HighWaterMark;
use quotamiser::state::State;
use quotamiser::trust::{assess, LedgerMeta, TrustVerdict, UnknownReason};

fn meta(generation: i64, cumulative: i64, clean: bool) -> LedgerMeta {
    LedgerMeta {
        generation,
        cumulative_liability: cumulative,
        current_epoch: 0,
        clean_shutdown: clean,
    }
}

fn mark(generation: i64, cumulative: i64, last: i64) -> Option<HighWaterMark> {
    Some(HighWaterMark {
        generation,
        cumulative_liability: cumulative,
        last_reservation: last,
    })
}

fn no_rows(_: i64) -> Option<(State, i64)> {
    None
}

#[test]
fn clean_and_consistent_is_the_only_trusted_shape() {
    let a = assess(meta(3, 300, true), Ok(mark(3, 300, 9)), no_rows);
    assert_eq!(a.verdict, TrustVerdict::Trusted);
    assert_eq!(a.promote_to_id_unknown, None);
}

#[test]
fn agreement_without_a_clean_shutdown_is_not_trust() {
    let a = assess(meta(3, 300, false), Ok(mark(3, 300, 9)), no_rows);
    assert_eq!(
        a.verdict,
        TrustVerdict::Unknown(UnknownReason::UncleanShutdown)
    );
}

#[test]
fn a_fresh_ledger_is_uninitialized_not_trusted() {
    let a = assess(meta(0, 0, false), Ok(None), no_rows);
    assert_eq!(
        a.verdict,
        TrustVerdict::Unknown(UnknownReason::Uninitialized)
    );
}

#[test]
fn one_uncommitted_dispatch_is_promoted_not_released() {
    let row = |id| (id == 9).then_some((State::Reserved, 50));
    let a = assess(meta(3, 300, false), Ok(mark(4, 350, 9)), row);
    assert_eq!(a.promote_to_id_unknown, Some(9));
    assert_eq!(
        a.verdict,
        TrustVerdict::Unknown(UnknownReason::UncleanShutdown)
    );
}

#[test]
fn a_gap_that_does_not_match_the_named_row_is_rollback() {
    let row = |id| (id == 9).then_some((State::Reserved, 49));
    let a = assess(meta(3, 300, false), Ok(mark(4, 350, 9)), row);
    assert_eq!(
        a.verdict,
        TrustVerdict::Unknown(UnknownReason::LedgerRolledBack)
    );
}

#[test]
fn a_ledger_restored_from_an_older_snapshot_is_detected() {
    let a = assess(meta(3, 300, true), Ok(mark(7, 900, 20)), no_rows);
    assert_eq!(
        a.verdict,
        TrustVerdict::Unknown(UnknownReason::LedgerRolledBack)
    );
}

#[test]
fn an_external_record_behind_the_ledger_is_never_trusted() {
    let a = assess(meta(5, 500, true), Ok(mark(4, 450, 8)), no_rows);
    assert_eq!(
        a.verdict,
        TrustVerdict::Unknown(UnknownReason::ExternalBehindLedger)
    );
}

#[test]
fn a_lost_ledger_with_a_surviving_external_record_is_rollback() {
    let a = assess(meta(0, 0, false), Ok(mark(12, 4_000, 30)), no_rows);
    assert_eq!(
        a.verdict,
        TrustVerdict::Unknown(UnknownReason::LedgerRolledBack)
    );
}

#[test]
fn a_missing_unreadable_or_inconsistent_record_is_named() {
    let missing = assess(meta(3, 300, true), Ok(None), no_rows);
    assert_eq!(
        missing.verdict,
        TrustVerdict::Unknown(UnknownReason::ExternalMissing)
    );
    let unreadable = assess(meta(3, 300, true), Err(()), no_rows);
    assert_eq!(
        unreadable.verdict,
        TrustVerdict::Unknown(UnknownReason::ExternalUnreadable)
    );
    let inconsistent = assess(meta(3, 300, true), Ok(mark(3, 301, 9)), no_rows);
    assert_eq!(
        inconsistent.verdict,
        TrustVerdict::Unknown(UnknownReason::Inconsistent)
    );
}
