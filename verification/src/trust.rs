//! Startup assessment of whether the ledger can be trusted.
//!
//! Agreement between the ledger and the external record is necessary but
//! never sufficient: a snapshot restored before its dispatches reached any
//! external record would agree with everything. So the only positive verdict
//! requires a clean shutdown as well, and every other shape is `Unknown`.
use vstd::prelude::*;

use crate::hwm::HighWaterMark;
use crate::state::State;

verus! {

#[derive(Debug, Clone, Copy, PartialEq, Eq, Structural)]
pub struct LedgerMeta {
    pub generation: i64,
    pub cumulative_liability: i64,
    pub current_epoch: i64,
    pub clean_shutdown: bool,
}

#[derive(Debug, Clone, Copy, PartialEq, Eq, Structural)]
pub enum TrustVerdict {
    Trusted,
    Unknown(UnknownReason),
}

#[derive(Debug, Clone, Copy, PartialEq, Eq, Structural)]
pub enum UnknownReason {
    /// Nothing has ever been dispatched and no external record exists. A
    /// fresh install and a wholly lost ledger look identical from here.
    Uninitialized,
    ExternalMissing,
    ExternalUnreadable,
    /// The external record is older than the ledger, which the write order
    /// makes impossible unless the external record itself was rolled back.
    ExternalBehindLedger,
    /// The external record is ahead by more than one uncommitted dispatch.
    LedgerRolledBack,
    /// Same generation, different totals.
    Inconsistent,
    UncleanShutdown,
}

#[derive(Debug, Clone, Copy, PartialEq, Eq, Structural)]
pub struct Assessment {
    pub verdict: TrustVerdict,
    /// A reservation whose dispatch reached the external record but not the
    /// ledger. It may have been sent, so it must be treated as sent with an
    /// unknown id, and the ledger meta advanced to match the external record.
    pub promote_to_id_unknown: Option<i64>,
}

pub open spec fn unknown(reason: UnknownReason) -> Assessment {
    Assessment { verdict: TrustVerdict::Unknown(reason), promote_to_id_unknown: None }
}

/// Neither the generation nor the cumulative liability of the external record
/// trails the ledger's.
pub open spec fn not_behind(external: HighWaterMark, meta: LedgerMeta) -> bool {
    external.generation >= meta.generation && external.cumulative_liability
        >= meta.cumulative_liability
}

/// The external record names exactly one dispatch the ledger did not commit:
/// a reserved row whose liability is the whole gap.
pub open spec fn one_uncommitted_dispatch(
    meta: LedgerMeta,
    external: HighWaterMark,
    row: Option<(State, i64)>,
) -> bool {
    external.generation == meta.generation + 1 && row == Some(
        (State::Reserved, (external.cumulative_liability - meta.cumulative_liability) as i64),
    )
}

/// The assessment, given what the ledger holds under the external record's
/// last reservation.
pub open spec fn assessment_of(
    meta: LedgerMeta,
    external: Result<Option<HighWaterMark>, ()>,
    row: Option<(State, i64)>,
) -> Assessment {
    match external {
        Err(_) => unknown(UnknownReason::ExternalUnreadable),
        Ok(None) => unknown(
            if meta.generation == 0 {
                UnknownReason::Uninitialized
            } else {
                UnknownReason::ExternalMissing
            },
        ),
        Ok(Some(external)) => if !not_behind(external, meta) {
            unknown(UnknownReason::ExternalBehindLedger)
        } else if external.generation == meta.generation {
            if external.cumulative_liability != meta.cumulative_liability {
                unknown(UnknownReason::Inconsistent)
            } else if meta.clean_shutdown {
                Assessment { verdict: TrustVerdict::Trusted, promote_to_id_unknown: None }
            } else {
                unknown(UnknownReason::UncleanShutdown)
            }
        } else if one_uncommitted_dispatch(meta, external, row) {
            // A pending promotion means the process died mid-dispatch, which a
            // clean shutdown marker cannot coexist with.
            if meta.clean_shutdown {
                unknown(UnknownReason::Inconsistent)
            } else {
                Assessment {
                    verdict: TrustVerdict::Unknown(UnknownReason::UncleanShutdown),
                    promote_to_id_unknown: Some(external.last_reservation),
                }
            }
        } else {
            unknown(UnknownReason::LedgerRolledBack)
        },
    }
}

fn unknown_because(reason: UnknownReason) -> (assessment: Assessment)
    ensures
        assessment == unknown(reason),
{
    Assessment { verdict: TrustVerdict::Unknown(reason), promote_to_id_unknown: None }
}

/// `row` returns the state and liability of a reservation by id. Its answer
/// matters only for the external record's last reservation, and only when the
/// record is exactly one generation ahead.
pub fn assess<F: Fn(i64) -> Option<(State, i64)>>(
    meta: LedgerMeta,
    external: Result<Option<HighWaterMark>, ()>,
    row: F,
) -> (assessment: Assessment)
    requires
        meta.generation >= 0,
        meta.cumulative_liability >= 0,
        forall|id: i64| #[trigger] call_requires(row, (id,)),
    ensures
        match external {
            Ok(Some(mark)) => exists|found: Option<(State, i64)>|
                {
                    &&& assessment == #[trigger] assessment_of(meta, external, found)
                    &&& not_behind(mark, meta) && mark.generation == meta.generation + 1
                        ==> call_ensures(row, (mark.last_reservation,), found)
                },
            _ => assessment == assessment_of(meta, external, None),
        },
{
    let mark = match external {
        Err(_) => return unknown_because(UnknownReason::ExternalUnreadable),
        Ok(None) => {
            if meta.generation == 0 {
                return unknown_because(UnknownReason::Uninitialized);
            }
            return unknown_because(UnknownReason::ExternalMissing);
        },
        Ok(Some(mark)) => mark,
    };
    let mut found: Option<(State, i64)> = None;
    if mark.generation >= meta.generation && mark.cumulative_liability
        >= meta.cumulative_liability && mark.generation - meta.generation == 1 {
        found = row(mark.last_reservation);
    }
    let assessment = assess_found(meta, mark, found);
    assert(assessment == assessment_of(meta, external, found));
    assessment
}

/// The assessment against an external record that exists, given what the
/// ledger holds under its last reservation.
pub fn assess_found(
    meta: LedgerMeta,
    external: HighWaterMark,
    found: Option<(State, i64)>,
) -> (assessment: Assessment)
    requires
        meta.generation >= 0,
        meta.cumulative_liability >= 0,
    ensures
        assessment == assessment_of(meta, Ok(Some(external)), found),
{
    if external.generation < meta.generation || external.cumulative_liability
        < meta.cumulative_liability {
        return unknown_because(UnknownReason::ExternalBehindLedger);
    }
    let mut promote: Option<i64> = None;
    let ahead: i64 = external.generation - meta.generation;
    let gap: i64 = external.cumulative_liability - meta.cumulative_liability;
    if ahead == 0 {
        if gap != 0 {
            return unknown_because(UnknownReason::Inconsistent);
        }
    } else if ahead == 1 {
        match found {
            Some((State::Reserved, liability)) => {
                if liability != gap {
                    return unknown_because(UnknownReason::LedgerRolledBack);
                }
                promote = Some(external.last_reservation);
            },
            _ => return unknown_because(UnknownReason::LedgerRolledBack),
        }
    } else {
        return unknown_because(UnknownReason::LedgerRolledBack);
    }
    if promote.is_some() && meta.clean_shutdown {
        return unknown_because(UnknownReason::Inconsistent);
    }
    let verdict = if meta.clean_shutdown {
        TrustVerdict::Trusted
    } else {
        TrustVerdict::Unknown(UnknownReason::UncleanShutdown)
    };
    Assessment { verdict, promote_to_id_unknown: promote }
}

/// Law: a clean shutdown whose external record agrees exactly is the only
/// shape that is trusted.
pub proof fn only_clean_agreement_is_trusted(
    meta: LedgerMeta,
    external: Result<Option<HighWaterMark>, ()>,
    row: Option<(State, i64)>,
)
    ensures
        assessment_of(meta, external, row).verdict is Trusted <==> {
            &&& meta.clean_shutdown
            &&& external matches Ok(Some(mark))
            &&& mark.generation == meta.generation
            &&& mark.cumulative_liability == meta.cumulative_liability
        },
        assessment_of(meta, external, row).verdict is Trusted ==> assessment_of(
            meta,
            external,
            row,
        ).promote_to_id_unknown is None,
{
}

/// Law: a ledger older than the external record by more than the one dispatch
/// that was never committed is always detected.
pub proof fn a_rolled_back_ledger_is_detected(
    meta: LedgerMeta,
    external: HighWaterMark,
    row: Option<(State, i64)>,
)
    requires
        not_behind(external, meta),
        external.generation > meta.generation,
        !one_uncommitted_dispatch(meta, external, row),
    ensures
        assessment_of(meta, Ok(Some(external)), row) == unknown(UnknownReason::LedgerRolledBack),
{
}

/// Law: why a ledger is not trusted. Its external record cannot be read; there
/// is none, before the first dispatch or after it; it trails the ledger; it
/// gives another total for the same dispatches; it is ahead by more than one
/// dispatch that was not committed; or the ledger was not closed cleanly.
pub proof fn an_untrusted_ledger_says_why(
    meta: LedgerMeta,
    external: Result<Option<HighWaterMark>, ()>,
    row: Option<(State, i64)>,
)
    requires
        meta.cumulative_liability >= 0,
    ensures
        ({
            let verdict = assessment_of(meta, external, row).verdict;
            match external {
                Err(_) => verdict == TrustVerdict::Unknown(UnknownReason::ExternalUnreadable),
                Ok(None) => verdict == TrustVerdict::Unknown(
                    if meta.generation == 0 {
                        UnknownReason::Uninitialized
                    } else {
                        UnknownReason::ExternalMissing
                    },
                ),
                Ok(Some(mark)) => {
                    let ahead = mark.generation - meta.generation;
                    let gap = mark.cumulative_liability - meta.cumulative_liability;
                    &&& ahead < 0 || gap < 0 <==> verdict == TrustVerdict::Unknown(
                        UnknownReason::ExternalBehindLedger,
                    )
                    &&& ahead == 0 && gap == 0 && !meta.clean_shutdown ==> verdict
                        == TrustVerdict::Unknown(UnknownReason::UncleanShutdown)
                    &&& ahead == 0 && gap > 0 ==> verdict == TrustVerdict::Unknown(
                        UnknownReason::Inconsistent,
                    )
                    &&& ahead > 1 && gap >= 0 ==> verdict == TrustVerdict::Unknown(
                        UnknownReason::LedgerRolledBack,
                    )
                },
            }
        }),
{
}

/// Law: a reservation is taken to have been sent exactly where the external
/// record is one dispatch ahead of a ledger that was not closed cleanly, and
/// names a row that is still reserved for exactly what the record is ahead by.
pub proof fn one_dispatch_may_have_been_sent(
    meta: LedgerMeta,
    mark: HighWaterMark,
    row: Option<(State, i64)>,
)
    requires
        meta.cumulative_liability >= 0,
    ensures
        ({
            let named = mark.generation == meta.generation + 1 && (row matches Some(
                (state, liability),
            ) && state == State::Reserved && liability >= 0 && meta.cumulative_liability + liability
                == mark.cumulative_liability);
            let assessment = assessment_of(meta, Ok(Some(mark)), row);
            &&& named && !meta.clean_shutdown ==> assessment.promote_to_id_unknown == Some(
                mark.last_reservation,
            )
            &&& !(named && !meta.clean_shutdown) ==> assessment.promote_to_id_unknown is None
            &&& named && meta.clean_shutdown ==> assessment.verdict == TrustVerdict::Unknown(
                UnknownReason::Inconsistent,
            )
        }),
{
}

} // verus!
