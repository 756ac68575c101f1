//! What holds of every change to a reservation, of its sending, and of opening a
//! ledger or a day.
use vstd::prelude::*;

use crate::admission::digest_text;
use crate::error::ErrorView;
use crate::hwm::HighWaterMark;
use crate::ledger::ReservationId;
use crate::rollover::{adopted, recovery_anchor, rollover_outcome, RolloverOutcome};
use crate::sending::{clearance, closed_by, closing_latch, open_slot_outcome, SlotAnswer};
use crate::requests::{slot_outcome, RequestWindow};
use crate::startup::{
    fresh_tables, integrity, last_dispatch, normalize_outcome, open_outcome, trust_of,
};
use crate::state::{State, Transition};
use crate::tables::{
    in_flight, lemma_pool_index, pool_index, pools_ok, tables_ok, LatchView, PoolView, RowView,
    TablesView,
};
use crate::text::decimal_text;
use crate::transitions::{
    begin_outcome, dispatch_mark, ending_outcome, group_of, lemma_group_head, lemma_head_index,
    lemma_row_index, relabel_outcome, row_index, settle_outcome, transition_group, ResponseView,
    Settlement,
};
use crate::trust::{assessment_of, Assessment, LedgerMeta, TrustVerdict, UnknownReason};

verus! {

/// A row once its group was given a state and a settled amount: nothing else of
/// it changed.
pub open spec fn moved(before: RowView, after: RowView, state: State, settled: Option<i64>) -> bool {
    after == (RowView { state, settled, ..before })
}

/// Law: ending a reservation gives every row of its group the end it came to,
/// without a settled amount, and touches no other row, no latch, no input and
/// no counter of requests.
pub proof fn ending_a_reservation_ends_its_group(
    t: TablesView,
    id: ReservationId,
    transition: Transition,
    i: int,
)
    requires
        transition == Transition::ReleaseUnsent || transition == Transition::Unrecoverable
            || transition == Transition::RejectBeforeProcessing,
        0 <= i < t.rows.len(),
    ensures
        ending_outcome(t, id, transition) matches Ok(after) ==> {
            &&& group_of(t.rows, id.0) matches Ok(head)
            &&& after.rows.len() == t.rows.len()
            &&& t.rows[i].root_id == t.rows[head].root_id ==> moved(
                t.rows[i],
                after.rows[i],
                match transition {
                    Transition::ReleaseUnsent => State::ReleasedUnsent,
                    Transition::RejectBeforeProcessing => State::RejectedBeforeProcessing,
                    _ => State::ConsumedUnrecoverable,
                },
                None,
            )
            &&& t.rows[i].root_id != t.rows[head].root_id ==> after.rows[i] == t.rows[i]
            &&& after.latches == t.latches
            &&& after.inputs == t.inputs
            &&& after.counters == t.counters
            &&& after.dispatches == t.dispatches
            &&& after.meta == t.meta
        },
{
}

/// Law: settling gives every row of the group the usage it was settled at, or
/// writes it off, and touches no other row; usage is an overrun exactly where
/// it goes beyond the liability.
pub proof fn settling_settles_the_group(
    t: TablesView,
    id: ReservationId,
    response: ResponseView,
    accounting_rev: i64,
    now: i64,
    i: int,
)
    requires
        0 <= i < t.rows.len(),
    ensures
        settle_outcome(t, id, response, accounting_rev, now) matches Ok((settlement, after)) ==> {
            &&& group_of(t.rows, id.0) matches Ok(head)
            &&& after.rows.len() == t.rows.len()
            &&& t.rows[i].root_id == t.rows[head].root_id ==> match settlement {
                Settlement::Settled { actual, overrun } => moved(
                    t.rows[i],
                    after.rows[i],
                    State::Settled,
                    Some(actual),
                ) && (overrun <==> t.rows[head].liability < actual),
                Settlement::WrittenOff(_) => moved(
                    t.rows[i],
                    after.rows[i],
                    State::ConsumedUnrecoverable,
                    None,
                ),
            }
            &&& t.rows[i].root_id != t.rows[head].root_id ==> after.rows[i] == t.rows[i]
            &&& after.inputs == t.inputs
            &&& after.counters == t.counters
            &&& after.dispatches == t.dispatches
            &&& after.meta == t.meta
        },
{
}

/// Law: a dispatch begins from a reservation, under a mark that counts one more
/// generation and the whole liability and names the reservation. The ledger
/// takes that mark over, every row of the group is then being sent, and nothing
/// else changes.
pub proof fn a_dispatch_begins_under_its_mark(
    t: TablesView,
    id: ReservationId,
    written: HighWaterMark,
    i: int,
)
    requires
        tables_ok(t),
        0 <= i < t.rows.len(),
    ensures
        begin_outcome(t, id, written) matches Ok(after) ==> {
            &&& group_of(t.rows, id.0) matches Ok(head)
            &&& t.rows[head].state == State::Reserved
            &&& written.generation == t.meta.generation + 1
            &&& written.cumulative_liability == t.meta.cumulative_liability
                + t.rows[head].liability
            &&& written.last_reservation == t.rows[head].root_id
            &&& after.meta.generation == written.generation
            &&& after.meta.cumulative_liability == written.cumulative_liability
            &&& after.meta.current_epoch == t.meta.current_epoch
            &&& after.meta.clean_shutdown == t.meta.clean_shutdown
            &&& after.rows.len() == t.rows.len()
            &&& t.rows[i].root_id == t.rows[head].root_id ==> moved(
                t.rows[i],
                after.rows[i],
                State::Dispatching,
                None,
            )
            &&& t.rows[i].root_id != t.rows[head].root_id ==> after.rows[i] == t.rows[i]
            &&& after.pools == t.pools
            &&& after.latches == t.latches
            &&& after.inputs == t.inputs
            &&& after.counters == t.counters
            &&& after.dispatches == t.dispatches
        },
        dispatch_mark(t, id) matches Ok(mark) ==> begin_outcome(t, id, mark) is Ok,
{
    lemma_group_head(t.rows, id.0);
    if let Ok(head) = group_of(t.rows, id.0) {
        assert(crate::tables::row_ok(t.rows[head], t.meta.current_epoch));
    }
}

/// Law: learning the id of a dispatch records it in every row of its group, and
/// losing it records that; neither changes anything else.
pub proof fn what_is_learned_of_a_dispatch_is_recorded(
    t: TablesView,
    id: ReservationId,
    response_id: Seq<char>,
    i: int,
)
    requires
        0 <= i < t.rows.len(),
    ensures
        relabel_outcome(t, id, Transition::AttachResponseId, Some(response_id)) matches Ok(after)
            ==> {
            &&& group_of(t.rows, id.0) matches Ok(head)
            &&& after == (TablesView { rows: after.rows, ..t })
            &&& after.rows.len() == t.rows.len()
            &&& t.rows[i].root_id == t.rows[head].root_id ==> after.rows[i] == (RowView {
                state: State::DispatchedWithId,
                response_id: Some(response_id),
                ..t.rows[i]
            })
            &&& t.rows[i].root_id != t.rows[head].root_id ==> after.rows[i] == t.rows[i]
        },
        relabel_outcome(t, id, Transition::MarkIdUnknown, None) matches Ok(after) ==> {
            &&& group_of(t.rows, id.0) matches Ok(head)
            &&& after == (TablesView { rows: after.rows, ..t })
            &&& after.rows.len() == t.rows.len()
            &&& t.rows[i].root_id == t.rows[head].root_id ==> after.rows[i] == (RowView {
                state: State::DispatchedIdUnknown,
                ..t.rows[i]
            })
            &&& t.rows[i].root_id != t.rows[head].root_id ==> after.rows[i] == t.rows[i]
        },
{
}

/// Law: a reservation is found by the id of any row of its group, and an id that
/// no row has is not found. A change that the state of the group does not allow
/// is refused, naming the state it is in and the one it was to reach.
pub proof fn a_reservation_is_found_by_its_id(
    t: TablesView,
    id: ReservationId,
    transition: Transition,
    i: int,
)
    requires
        0 <= i < t.rows.len(),
        t.rows[i].id == id.0,
        forall|a: int, b: int|
            0 <= a < b < t.rows.len() ==> (#[trigger] t.rows[a]).id < (#[trigger] t.rows[b]).id,
    ensures
        match transition_group(t, id, transition) {
            Ok(head) => 0 <= head <= i && t.rows[head].root_id == t.rows[i].root_id
                && t.rows[head].state == t.rows[i].state && crate::state::allowed(
                transition,
                t.rows[i].state,
            ),
            Err(ErrorView::IllegalTransition { root_id, from, to }) => root_id
                == t.rows[i].root_id && from == t.rows[i].state && to == crate::state::target_of(
                transition,
            ) && !crate::state::allowed(transition, t.rows[i].state),
            Err(ErrorView::Integrity(_)) => exists|a: int, b: int|
                0 <= a < t.rows.len() && 0 <= b < t.rows.len() && (#[trigger] t.rows[a]).root_id
                    == t.rows[i].root_id && (#[trigger] t.rows[b]).root_id == t.rows[i].root_id && (
                t.rows[a].state != t.rows[b].state || t.rows[a].liability != t.rows[b].liability),
            Err(_) => false,
        },
{
    lemma_row_index(t.rows, id.0);
    let k = row_index(t.rows, id.0)->0;
    if k < i {
        assert(t.rows[k].id < t.rows[i].id);
    } else if i < k {
        assert(t.rows[i].id < t.rows[k].id);
    }
    lemma_head_index(t.rows, t.rows[i].root_id, 0, i);
    lemma_group_head(t.rows, id.0);
}

/// Law: an id that no row has is not found.
pub proof fn an_unknown_id_is_not_found(t: TablesView, id: ReservationId, transition: Transition)
    requires
        forall|i: int| 0 <= i < t.rows.len() ==> (#[trigger] t.rows[i]).id != id.0,
    ensures
        transition_group(t, id, transition) matches Err(ErrorView::NotFound(missing)) && missing
            == id.0,
{
    lemma_row_index(t.rows, id.0);
}

// ---------------------------------------------------------------------------
// Sending.

/// Law: a body may be sent on a reservation exactly where no open latch closes
/// everything, fewer than thirty-two dispatches are open, and it is the body
/// the reservation was made for.
pub proof fn what_may_be_sent(t: TablesView, id: ReservationId, body: Seq<u8>, head: int)
    requires
        group_of(t.rows, id.0) matches Ok(found) && found == head,
    ensures
        clearance(t, id, body) is Ok <==> {
            &&& forall|i: int|
                0 <= i < t.latches.len() ==> !((#[trigger] t.latches[i]).scope == "global"@
                    && t.latches[i].cleared is None)
            &&& in_flight(t.rows) < 32
            &&& t.rows[head].request_digest == digest_text(body)
        },
        match clearance(t, id, body) {
            Err(ErrorView::ProviderClosed { scope, reason }) => exists|i: int|
                0 <= i < t.latches.len() && (#[trigger] t.latches[i]).scope == "global"@
                    && t.latches[i].cleared is None && scope == "global"@ && t.latches[i].reason
                    == reason,
            Err(ErrorView::TooManyInFlight { open }) => in_flight(t.rows) >= 32,
            Err(ErrorView::BodyMismatch(root)) => root == t.rows[head].root_id
                && t.rows[head].request_digest != digest_text(body),
            Err(_) => false,
            Ok(_) => true,
        },
{
    lemma_closed_scope(t.latches, "global"@);
}

/// A scope is closed where one of its latches is open.
proof fn lemma_closed_scope(latches: Seq<LatchView>, scope: Seq<char>)
    ensures
        match closed_by(latches, scope) {
            Some(latch) => latch.scope == scope && latch.cleared is None && exists|i: int|
                0 <= i < latches.len() && #[trigger] latches[i] == latch,
            None => forall|i: int|
                0 <= i < latches.len() ==> !((#[trigger] latches[i]).scope == scope
                    && latches[i].cleared is None),
        },
    decreases latches.len(),
{
    if latches.len() > 0 {
        let front = latches.drop_last();
        let n = latches.len() - 1;
        lemma_closed_scope(front, scope);
        assert(latches[n] == latches.last());
        match closed_by(front, scope) {
            Some(latch) => {
                let i = choose|i: int| 0 <= i < front.len() && #[trigger] front[i] == latch;
                assert(latches[i] == latch);
            },
            None => {
                assert forall|i: int| 0 <= i < n implies !((#[trigger] latches[i]).scope == scope
                    && latches[i].cleared is None) by {
                    assert(front[i] == latches[i]);
                }
            },
        }
    }
}

/// Law: a provider is closed by a latch on its own scope that names the status,
/// and takes no slot until every latch of that scope is cleared; another
/// provider is not closed by it.
pub proof fn a_closed_provider_takes_no_slot(
    t: TablesView,
    provider: Seq<char>,
    status: u16,
    now: i64,
    epoch: i64,
    limit_per_day: u64,
    window: RequestWindow,
)
    ensures
        ({
            let latch = closing_latch(provider, status, now);
            &&& latch.scope == provider
            &&& latch.cleared is None
            &&& latch.set_at == now
            &&& latch.evidence == Some("status "@ + decimal_text(status as nat))
        }),
        (exists|i: int|
            0 <= i < t.latches.len() && (#[trigger] t.latches[i]).scope == provider
                && t.latches[i].cleared is None) ==> open_slot_outcome(
            t,
            provider,
            epoch,
            limit_per_day,
            window,
            now,
        ) == Ok::<(SlotAnswer, TablesView), ErrorView>((SlotAnswer::Closed, t)),
        !(exists|i: int|
            0 <= i < t.latches.len() && (#[trigger] t.latches[i]).scope == provider
                && t.latches[i].cleared is None) ==> match slot_outcome(
            t,
            provider,
            epoch,
            limit_per_day,
            window,
            now,
        ) {
            Ok((slot, after)) => open_slot_outcome(
                t,
                provider,
                epoch,
                limit_per_day,
                window,
                now,
            ) == Ok::<(SlotAnswer, TablesView), ErrorView>((SlotAnswer::Slot(slot), after)),
            Err(error) => open_slot_outcome(
                t,
                provider,
                epoch,
                limit_per_day,
                window,
                now,
            ) == Err::<(SlotAnswer, TablesView), ErrorView>(error),
        },
{
    lemma_closed_scope(t.latches, provider);
}

// ---------------------------------------------------------------------------
// Opening.

/// Law: what a previous run left behind. What was being sent is sent with its id
/// lost. What was reserved is released where the record of the run can be read,
/// and is taken to have been sent where it cannot, or where the record names
/// it. Everything else is as it was, and the run that begins is not over.
pub proof fn what_was_left_behind_is_settled(
    t: TablesView,
    assessment: Assessment,
    external: Option<HighWaterMark>,
    i: int,
)
    requires
        0 <= i < t.rows.len(),
    ensures
        normalize_outcome(t, assessment, external) matches Ok(after) ==> {
            let named = external is Some && assessment.promote_to_id_unknown == Some(
                t.rows[i].root_id,
            );
            let readable = assessment.verdict == TrustVerdict::Trusted || assessment.verdict
                == TrustVerdict::Unknown(UnknownReason::UncleanShutdown);
            &&& after.rows.len() == t.rows.len()
            &&& after.rows[i] == (RowView {
                state: match t.rows[i].state {
                    State::Reserved => if !named && readable {
                        State::ReleasedUnsent
                    } else {
                        State::DispatchedIdUnknown
                    },
                    State::Dispatching => State::DispatchedIdUnknown,
                    state => state,
                },
                ..t.rows[i]
            })
            &&& !after.meta.clean_shutdown
            &&& after.meta.current_epoch == t.meta.current_epoch
            &&& external is Some && assessment.promote_to_id_unknown is Some
                ==> after.meta.generation == external->0.generation
                && after.meta.cumulative_liability == external->0.cumulative_liability
            &&& external is None || assessment.promote_to_id_unknown is None
                ==> after.meta.generation == t.meta.generation
                && after.meta.cumulative_liability == t.meta.cumulative_liability
            &&& after.latches == t.latches
            &&& after.inputs == t.inputs
            &&& after.counters == t.counters
            &&& after.dispatches == t.dispatches
        },
{
}

/// Law: a ledger is opened where its tables are in shape and its books agree,
/// and is trusted as its record stands to the external one and to the row that
/// the external one names.
pub proof fn a_ledger_is_opened_where_its_books_agree(
    t: TablesView,
    external: Result<Option<HighWaterMark>, ()>,
)
    ensures
        open_outcome(t, external) matches Ok((assessment, after)) ==> {
            &&& tables_ok(t)
            &&& integrity(t) is Ok
            &&& assessment == trust_of(t, external)
        },
        !tables_ok(t) || integrity(t) is Err ==> open_outcome(t, external) is Err,
        external matches Ok(Some(mark)) ==> match last_dispatch(t, external) {
            Some((state, liability)) => exists|i: int|
                0 <= i < t.rows.len() && (#[trigger] t.rows[i]).id == mark.last_reservation
                    && t.rows[i].state == state && t.rows[i].liability == liability,
            None => forall|i: int|
                0 <= i < t.rows.len() ==> (#[trigger] t.rows[i]).id != mark.last_reservation,
        },
        trust_of(t, external) == assessment_of(t.meta, external, last_dispatch(t, external)),
{
    if let Ok(Some(mark)) = external {
        lemma_row_index(t.rows, mark.last_reservation);
    }
}

/// Law: a ledger that was never used holds nothing and has dispatched nothing.
pub proof fn a_fresh_ledger_holds_nothing()
    ensures
        ({
            let t = fresh_tables();
            &&& t.pools.len() == 0 && t.rows.len() == 0 && t.inputs.len() == 0
            &&& t.latches.len() == 0 && t.counters.len() == 0 && t.dispatches.len() == 0
            &&& t.meta.generation == 0 && t.meta.cumulative_liability == 0
            &&& t.meta.current_epoch == 0 && !t.meta.clean_shutdown
        }),
{
}

// ---------------------------------------------------------------------------
// A new day, and recovery.

/// Law: adopting one more amount raises the consumption of its pool's day to
/// that amount where it was lower, and touches no other.
pub proof fn adopting_raises_to_the_amount(
    pools: Seq<PoolView>,
    adoptions: Seq<(Seq<char>, i64, u64)>,
    pool_id: Seq<char>,
    epoch: i64,
    amount: u64,
    current_epoch: i64,
    k: int,
)
    requires
        adopted(pools, adoptions) matches Ok(before) && pools_ok(before, current_epoch) && 0 <= k
            < before.len(),
    ensures
        ({
            let before = adopted(pools, adoptions)->Ok_0;
            match adopted(pools, adoptions.push((pool_id, epoch, amount))) {
                Ok(after) => {
                    &&& amount <= i64::MAX
                    &&& after.len() == before.len()
                    &&& before[k].pool_id == pool_id && before[k].epoch == epoch ==> after[k] == (
                    PoolView {
                        consumed: if amount > before[k].consumed {
                            amount as i64
                        } else {
                            before[k].consumed
                        },
                        ..before[k]
                    })
                    &&& !(before[k].pool_id == pool_id && before[k].epoch == epoch) ==> after[k]
                        == before[k]
                },
                Err(error) => amount > i64::MAX || !(before[k].pool_id == pool_id
                    && before[k].epoch == epoch),
            }
        }),
        adopted(pools, Seq::empty()) == Ok::<Seq<PoolView>, ErrorView>(pools),
{
    let before = adopted(pools, adoptions)->Ok_0;
    let more = adoptions.push((pool_id, epoch, amount));
    assert(more.drop_last() =~= adoptions);
    lemma_pool_index(before, pool_id, epoch);
    if let Some(m) = pool_index(before, pool_id, epoch) {
        if before[k].pool_id == pool_id && before[k].epoch == epoch {
            if k < m {
                assert(!crate::tables::same_pool(before[k], before[m]));
            } else if m < k {
                assert(!crate::tables::same_pool(before[m], before[k]));
            }
        }
    }
}

/// Law: a recovered ledger goes on one generation past the later of the two
/// records, from the larger of the two totals.
pub proof fn a_recovered_ledger_goes_on_past_both(
    meta: LedgerMeta,
    external: Option<HighWaterMark>,
)
    ensures
        match recovery_anchor(meta, external) {
            Ok(anchor) => {
                &&& anchor.generation > meta.generation
                &&& anchor.cumulative_liability >= meta.cumulative_liability
                &&& anchor.last_reservation == 0
                &&& match external {
                    Some(mark) => {
                        &&& anchor.generation > mark.generation
                        &&& anchor.cumulative_liability >= mark.cumulative_liability
                        &&& anchor.generation == meta.generation + 1 || anchor.generation
                            == mark.generation + 1
                        &&& anchor.cumulative_liability == meta.cumulative_liability
                            || anchor.cumulative_liability == mark.cumulative_liability
                    },
                    None => anchor.generation == meta.generation + 1 && anchor.cumulative_liability
                        == meta.cumulative_liability,
                }
            },
            Err(error) => error == ErrorView::Overflow && (meta.generation == i64::MAX || (
            external matches Some(mark) && mark.generation == i64::MAX)),
        },
{
}

/// Law: a rollover to a day that is not later changes nothing; one to a later
/// day moves the ledger to it, and leaves the latches, the inputs, the counters
/// of requests and the record of dispatches as they were.
pub proof fn a_rollover_moves_to_its_day(
    t: TablesView,
    new_epoch: i64,
    grants: Seq<(Seq<char>, u64)>,
)
    ensures
        new_epoch <= t.meta.current_epoch ==> rollover_outcome(t, new_epoch, grants) == Ok::<
            (RolloverOutcome, TablesView),
            ErrorView,
        >((RolloverOutcome::AlreadyCurrent, t)),
        new_epoch > t.meta.current_epoch ==> (rollover_outcome(t, new_epoch, grants) matches Ok(
            (outcome, after),
        ) ==> {
            &&& outcome matches RolloverOutcome::Advanced { carried }
            &&& after.rows.len() - t.rows.len() == carried || after.rows.len() - t.rows.len()
                > usize::MAX || after.rows.len() < t.rows.len()
            &&& after.meta == (LedgerMeta { current_epoch: new_epoch, ..t.meta })
            &&& after.latches == t.latches
            &&& after.inputs == t.inputs
            &&& after.counters == t.counters
            &&& after.dispatches == t.dispatches
        }),
{
}

} // verus!
