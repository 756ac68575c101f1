//! Whole histories of a ledger: whatever is done to it, in whatever order and
//! with whatever restarts in between, its books stay in order, and what may
//! reach upstream stays within the grant. A provider that was closed stays
//! closed, and no more dispatches are open than there may be.
use vstd::prelude::*;

use crate::books::{
    dispatching_keeps_the_books, ending_keeps_the_books, ordered_books_never_exceed_the_grant,
    settling_keeps_the_books,
};
use crate::hwm::HighWaterMark;
use crate::inventory::{
    an_invalidated_input_is_gone, cleared, revalidate_outcome, revalidating_keeps_the_shape,
    without_input,
};
use crate::ledger::{
    reserve_keeps_the_books, reserve_keeps_the_shape, reserve_outcome, AdmissionView,
    RequestView, ReservationId, MAX_IN_FLIGHT,
};
use crate::requests::{slot_outcome, taking_a_slot_keeps_the_shape, RequestWindow};
use crate::rollover::{
    a_new_day_opens_no_dispatch, adoption_only_raises_consumption, adoption_outcome, all_carried, carries, grant_of, granted_by,
    no_grant_shrinks, rollover_carries_every_active_group, rollover_keeps_the_books,
    rollover_keeps_the_shape, rollover_keeps_within_grants, rollover_outcome,
    the_same_grants_open_the_same_day,
};
use crate::sending::{
    a_closed_provider_grants_no_slot, a_closed_provider_is_sent_nothing,
    beginning_opens_one_dispatch, clearance, closes, closing_latch, open_slot_outcome,
    sending_outcome, SlotAnswer, OPENAI_SCOPE,
};
use crate::startup::{
    fresh_tables, integrity, interpretable, normalizing_keeps_the_books, normalizing_keeps_the_shape,
    open_outcome, trust_of,
};
use crate::state::{active, maybe_sent, Transition};
use crate::tables::{
    flight_term, held, in_flight, lemma_one_term, lemma_total_bounded, lemma_total_push,
    lemma_total_splits, lemma_total_zero, never_exceeds_the_grant, overrun, sound, spent, tables_ok, tallied, within_grants,
    LatchView, RowView, TablesView,
};
use crate::transitions::{
    beginning_keeps_the_shape, begin_outcome, dispatch_mark, ending_keeps_the_shape,
    ending_outcome, group_of, lemma_group_head, relabel_outcome, relabelling_keeps_the_shape,
    settle_outcome, settling_keeps_the_shape, transition_group, ResponseView,
};
use crate::trust::{LedgerMeta, TrustVerdict};

verus! {

/// Something that is done to a ledger.
pub enum Op {
    Reserve { trust: TrustVerdict, request: RequestView, now: i64 },
    BeginDispatch { id: ReservationId },
    /// A dispatch that begins only where its body may be sent.
    BeginSending { id: ReservationId, body: Seq<u8> },
    AttachResponseId { id: ReservationId, response_id: Seq<char> },
    MarkIdUnknown { id: ReservationId },
    Settle { id: ReservationId, response: ResponseView, accounting_rev: i64, now: i64 },
    WriteOff { id: ReservationId },
    ReleaseUnsent { id: ReservationId },
    ReleaseRejected { id: ReservationId },
    RollOver { epoch: i64, grants: Seq<(Seq<char>, u64)> },
    Adopt { adoptions: Seq<(Seq<char>, i64, u64)>, external: Option<HighWaterMark> },
    /// The process ends, however it ends, and the ledger is opened again.
    Reopen { record: Result<Option<HighWaterMark>, ()> },
    MarkClean,
    Revalidate { key: Seq<char>, now: i64, ttl_seconds: i64, budget: u64 },
    Invalidate { key: Seq<char> },
    SetLatch { latch: LatchView },
    ClearLatches { scope: Seq<char>, cleared_by: Seq<char>, now: i64 },
    TakeSlot {
        provider: Seq<char>,
        epoch: i64,
        limit_per_day: u64,
        window: RequestWindow,
        now: i64,
    },
    /// A slot that is granted only where its provider is not closed.
    TakeOpenSlot {
        provider: Seq<char>,
        epoch: i64,
        limit_per_day: u64,
        window: RequestWindow,
        now: i64,
    },
}

/// The tables once a dispatch has begun.
pub open spec fn begun(t: TablesView, id: ReservationId) -> TablesView {
    match dispatch_mark(t, id) {
        Ok(mark) => match begin_outcome(t, id, mark) {
            Ok(after) => after,
            Err(_) => t,
        },
        Err(_) => t,
    }
}

/// The tables after an operation. One that fails leaves them as they were.
pub open spec fn applied(t: TablesView, op: Op) -> TablesView {
    match op {
        Op::Reserve { trust, request, now } => reserve_outcome(t, trust, request, now).1,
        Op::BeginDispatch { id } => begun(t, id),
        Op::BeginSending { id, body } => if clearance(t, id, body) is Ok {
            begun(t, id)
        } else {
            t
        },
        Op::AttachResponseId { id, response_id } => match relabel_outcome(
            t,
            id,
            Transition::AttachResponseId,
            Some(response_id),
        ) {
            Ok(after) => after,
            Err(_) => t,
        },
        Op::MarkIdUnknown { id } => match relabel_outcome(
            t,
            id,
            Transition::MarkIdUnknown,
            None,
        ) {
            Ok(after) => after,
            Err(_) => t,
        },
        Op::Settle { id, response, accounting_rev, now } => match settle_outcome(
            t,
            id,
            response,
            accounting_rev,
            now,
        ) {
            Ok((_, after)) => after,
            Err(_) => t,
        },
        Op::WriteOff { id } => match ending_outcome(t, id, Transition::Unrecoverable) {
            Ok(after) => after,
            Err(_) => t,
        },
        Op::ReleaseUnsent { id } => match ending_outcome(t, id, Transition::ReleaseUnsent) {
            Ok(after) => after,
            Err(_) => t,
        },
        Op::ReleaseRejected { id } => match ending_outcome(
            t,
            id,
            Transition::RejectBeforeProcessing,
        ) {
            Ok(after) => after,
            Err(_) => t,
        },
        Op::RollOver { epoch, grants } => match rollover_outcome(t, epoch, grants) {
            Ok((_, after)) => after,
            Err(_) => t,
        },
        Op::Adopt { adoptions, external } => match adoption_outcome(t, adoptions, external) {
            Ok(after) => after,
            Err(_) => t,
        },
        Op::Reopen { record } => match open_outcome(t, record) {
            Ok((_, after)) => after,
            Err(_) => t,
        },
        Op::MarkClean => if integrity(t) is Ok {
            TablesView { meta: LedgerMeta { clean_shutdown: true, ..t.meta }, ..t }
        } else {
            t
        },
        Op::Revalidate { key, now, ttl_seconds, budget } => match revalidate_outcome(
            t,
            key,
            now,
            ttl_seconds,
            budget,
        ) {
            Ok(after) => after,
            Err(_) => t,
        },
        Op::Invalidate { key } => TablesView { inputs: without_input(t.inputs, key), ..t },
        Op::SetLatch { latch } => TablesView { latches: t.latches.push(latch), ..t },
        Op::ClearLatches { scope, cleared_by, now } => TablesView {
            latches: cleared(t.latches, scope, cleared_by, now),
            ..t
        },
        Op::TakeSlot { provider, epoch, limit_per_day, window, now } => match slot_outcome(
            t,
            provider,
            epoch,
            limit_per_day,
            window,
            now,
        ) {
            Ok((_, after)) => after,
            Err(_) => t,
        },
        Op::TakeOpenSlot { provider, epoch, limit_per_day, window, now } =>
        match open_slot_outcome(t, provider, epoch, limit_per_day, window, now) {
            Ok((_, after)) => after,
            Err(_) => t,
        },
    }
}

/// An external record holds no negative number.
pub open spec fn op_ok(op: Op) -> bool {
    match op {
        Op::Reopen { record } => record matches Ok(Some(mark)) ==> mark.generation >= 0
            && mark.cumulative_liability >= 0,
        _ => true,
    }
}

/// What a ledger's tables are throughout.
pub open spec fn in_order(t: TablesView) -> bool {
    &&& tables_ok(t)
    &&& sound(t)
    &&& all_carried(t)
}

/// What comes from outside keeps to the grant: no pool's grant shrinks from
/// one day to the next, and recovered consumption leaves room for what is
/// reserved.
pub open spec fn keeps_to_the_grant(t: TablesView, op: Op) -> bool {
    match op {
        Op::RollOver { .. } => no_grant_shrinks(
            t.pools,
            applied(t, op).pools,
            t.meta.current_epoch,
        ),
        Op::Adopt { .. } => within_grants(applied(t, op).pools, applied(t, op).rows),
        _ => true,
    }
}

/// Nothing is recovered from usage reporting.
pub open spec fn adopts_nothing(op: Op) -> bool {
    op matches Op::Adopt { adoptions, .. } ==> adoptions.len() == 0
}

/// A day that is opened is opened with these grants.
pub open spec fn opens_with(op: Op, grants: Seq<(Seq<char>, u64)>) -> bool {
    op matches Op::RollOver { grants: given, .. } ==> given == grants
}

/// The tables after a history.
pub open spec fn replayed(t: TablesView, ops: Seq<Op>) -> TablesView
    decreases ops.len(),
{
    if ops.len() == 0 {
        t
    } else {
        applied(replayed(t, ops.drop_last()), ops.last())
    }
}

/// Every operation of a history is well formed.
pub open spec fn ops_ok(ops: Seq<Op>) -> bool {
    forall|i: int| 0 <= i < ops.len() ==> op_ok(#[trigger] ops[i])
}

/// Everything that came from outside in a history kept to the grant.
pub open spec fn all_keep_to_the_grant(t: TablesView, ops: Seq<Op>) -> bool
    decreases ops.len(),
{
    ops.len() == 0 || (all_keep_to_the_grant(t, ops.drop_last()) && keeps_to_the_grant(
        replayed(t, ops.drop_last()),
        ops.last(),
    ))
}

/// Rows that keep their groups and days, and where nothing becomes active,
/// keep every active group carried.
proof fn lemma_still_carried(t: TablesView, after: TablesView)
    requires
        all_carried(t),
        after.rows.len() == t.rows.len(),
        after.meta.current_epoch == t.meta.current_epoch,
        forall|i: int|
            0 <= i < t.rows.len() ==> {
                &&& (#[trigger] after.rows[i]).root_id == t.rows[i].root_id
                &&& after.rows[i].epoch == t.rows[i].epoch
                &&& active(after.rows[i].state) ==> active(t.rows[i].state)
            },
    ensures
        all_carried(after),
{
    assert forall|i: int| 0 <= i < after.rows.len() && carries(after.rows, i) implies (
    #[trigger] after.rows[i]).epoch == after.meta.current_epoch by {
        assert forall|j: int|
            0 <= j < t.rows.len() && (#[trigger] t.rows[j]).root_id
                == t.rows[i].root_id implies t.rows[j].epoch <= t.rows[i].epoch by {
            assert(after.rows[j].root_id == after.rows[i].root_id);
        }
        assert(carries(t.rows, i));
    }
}

proof fn lemma_reserve_carries(t: TablesView, trust: TrustVerdict, request: RequestView, now: i64)
    requires
        all_carried(t),
    ensures
        all_carried(reserve_outcome(t, trust, request, now).1),
{
    let after = reserve_outcome(t, trust, request, now).1;
    if after != t {
        assert forall|i: int| 0 <= i < after.rows.len() && carries(after.rows, i) implies (
        #[trigger] after.rows[i]).epoch == after.meta.current_epoch by {
            if i < t.rows.len() {
                assert(after.rows[i] == t.rows[i]);
                assert forall|j: int|
                    0 <= j < t.rows.len() && (#[trigger] t.rows[j]).root_id
                        == t.rows[i].root_id implies t.rows[j].epoch <= t.rows[i].epoch by {
                    assert(after.rows[j] == t.rows[j]);
                }
                assert(carries(t.rows, i));
            }
        }
    }
}

proof fn lemma_group_active(t: TablesView, id: ReservationId, transition: Transition)
    ensures
        transition_group(t, id, transition) matches Ok(head) ==> forall|i: int|
            0 <= i < t.rows.len() && (#[trigger] t.rows[i]).root_id == t.rows[head].root_id
                ==> active(t.rows[i].state),
{
    lemma_group_head(t.rows, id.0);
}

proof fn lemma_begin_in_order(t: TablesView, id: ReservationId)
    requires
        in_order(t),
    ensures
        in_order(begun(t, id)),
{
    if let Ok(mark) = dispatch_mark(t, id) {
        beginning_keeps_the_shape(t, id, mark);
        dispatching_keeps_the_books(t, id, mark, Transition::MarkIdUnknown, None);
        lemma_group_active(t, id, Transition::BeginDispatch);
        lemma_still_carried(t, begun(t, id));
    }
}

proof fn lemma_relabel_in_order(
    t: TablesView,
    id: ReservationId,
    transition: Transition,
    response_id: Option<Seq<char>>,
)
    requires
        in_order(t),
        (transition == Transition::AttachResponseId && response_id is Some) || (transition
            == Transition::MarkIdUnknown && response_id is None),
    ensures
        relabel_outcome(t, id, transition, response_id) matches Ok(after) ==> in_order(after),
{
    if let Ok(after) = relabel_outcome(t, id, transition, response_id) {
        relabelling_keeps_the_shape(t, id, transition, response_id);
        dispatching_keeps_the_books(t, id, arbitrary(), transition, response_id);
        lemma_group_active(t, id, transition);
        lemma_still_carried(t, after);
    }
}

proof fn lemma_settle_in_order(
    t: TablesView,
    id: ReservationId,
    response: ResponseView,
    accounting_rev: i64,
    now: i64,
)
    requires
        in_order(t),
    ensures
        settle_outcome(t, id, response, accounting_rev, now) matches Ok((_, after)) ==> in_order(
            after,
        ),
{
    if let Ok((_, after)) = settle_outcome(t, id, response, accounting_rev, now) {
        settling_keeps_the_shape(t, id, response, accounting_rev, now);
        settling_keeps_the_books(t, id, response, accounting_rev, now);
        lemma_still_carried(t, after);
    }
}

proof fn lemma_ending_in_order(t: TablesView, id: ReservationId, transition: Transition)
    requires
        in_order(t),
        transition == Transition::Unrecoverable || transition == Transition::ReleaseUnsent
            || transition == Transition::RejectBeforeProcessing,
    ensures
        ending_outcome(t, id, transition) matches Ok(after) ==> in_order(after),
{
    if let Ok(after) = ending_outcome(t, id, transition) {
        ending_keeps_the_shape(t, id, transition);
        ending_keeps_the_books(t, id, transition);
        lemma_still_carried(t, after);
    }
}

proof fn lemma_rollover_in_order(t: TablesView, epoch: i64, grants: Seq<(Seq<char>, u64)>)
    requires
        in_order(t),
    ensures
        rollover_outcome(t, epoch, grants) matches Ok((_, after)) ==> in_order(after),
{
    rollover_keeps_the_shape(t, epoch, grants);
    rollover_keeps_the_books(t, epoch, grants);
    if epoch > t.meta.current_epoch {
        rollover_carries_every_active_group(t, epoch, grants);
    }
}

proof fn lemma_adoption_in_order(
    t: TablesView,
    adoptions: Seq<(Seq<char>, i64, u64)>,
    external: Option<HighWaterMark>,
)
    requires
        in_order(t),
    ensures
        adoption_outcome(t, adoptions, external) matches Ok(after) ==> in_order(after),
{
    adoption_only_raises_consumption(t, adoptions, external);
    if let Ok(after) = adoption_outcome(t, adoptions, external) {
        lemma_still_carried(t, after);
    }
}

proof fn lemma_reopen_in_order(t: TablesView, record: Result<Option<HighWaterMark>, ()>)
    requires
        in_order(t),
        op_ok(Op::Reopen { record }),
    ensures
        open_outcome(t, record) matches Ok((_, after)) ==> in_order(after),
{
    if let Ok((_, after)) = open_outcome(t, record) {
        let mark = match record {
            Ok(Some(mark)) => Some(mark),
            _ => None,
        };
        normalizing_keeps_the_shape(t, trust_of(t, record), mark);
        normalizing_keeps_the_books(t, trust_of(t, record), mark);
        lemma_still_carried(t, after);
    }
}

/// Operations that leave pools, rows and the day alone.
proof fn lemma_aside_in_order(t: TablesView, after: TablesView)
    requires
        in_order(t),
        tables_ok(after),
        after.pools == t.pools,
        after.rows == t.rows,
        after.meta.current_epoch == t.meta.current_epoch,
    ensures
        in_order(after),
{
    lemma_still_carried(t, after);
}

/// Law: whatever is done to a ledger whose books are in order leaves them in
/// order, with every active group carried into the current day.
#[verifier::spinoff_prover]
pub proof fn every_operation_keeps_the_books_in_order(t: TablesView, op: Op)
    requires
        in_order(t),
        op_ok(op),
    ensures
        in_order(applied(t, op)),
{
    let after = applied(t, op);
    match op {
        Op::Reserve { trust, request, now } => {
            reserve_keeps_the_shape(t, trust, request, now);
            reserve_keeps_the_books(t, trust, request, now);
            lemma_reserve_carries(t, trust, request, now);
        },
        Op::BeginDispatch { id } => lemma_begin_in_order(t, id),
        Op::BeginSending { id, body } => lemma_begin_in_order(t, id),
        Op::AttachResponseId { id, response_id } => lemma_relabel_in_order(
            t,
            id,
            Transition::AttachResponseId,
            Some(response_id),
        ),
        Op::MarkIdUnknown { id } => lemma_relabel_in_order(
            t,
            id,
            Transition::MarkIdUnknown,
            None,
        ),
        Op::Settle { id, response, accounting_rev, now } => lemma_settle_in_order(
            t,
            id,
            response,
            accounting_rev,
            now,
        ),
        Op::WriteOff { id } => lemma_ending_in_order(t, id, Transition::Unrecoverable),
        Op::ReleaseUnsent { id } => lemma_ending_in_order(t, id, Transition::ReleaseUnsent),
        Op::ReleaseRejected { id } => lemma_ending_in_order(
            t,
            id,
            Transition::RejectBeforeProcessing,
        ),
        Op::RollOver { epoch, grants } => lemma_rollover_in_order(t, epoch, grants),
        Op::Adopt { adoptions, external } => lemma_adoption_in_order(t, adoptions, external),
        Op::Reopen { record } => lemma_reopen_in_order(t, record),
        Op::MarkClean => lemma_aside_in_order(t, after),
        Op::Revalidate { key, now, ttl_seconds, budget } => {
            revalidating_keeps_the_shape(t, key, now, ttl_seconds, budget);
            lemma_aside_in_order(t, after);
        },
        Op::Invalidate { key } => {
            an_invalidated_input_is_gone(t.inputs, key);
            lemma_aside_in_order(t, after);
        },
        Op::SetLatch { latch } => lemma_aside_in_order(t, after),
        Op::ClearLatches { scope, cleared_by, now } => lemma_aside_in_order(t, after),
        Op::TakeSlot { provider, epoch, limit_per_day, window, now } => {
            taking_a_slot_keeps_the_shape(t, provider, epoch, limit_per_day, window, now);
            lemma_aside_in_order(t, after);
        },
        Op::TakeOpenSlot { provider, epoch, limit_per_day, window, now } => {
            taking_a_slot_keeps_the_shape(t, provider, epoch, limit_per_day, window, now);
            lemma_aside_in_order(t, after);
        },
    }
}

/// Law: whatever is done to a ledger whose pools are within their grants keeps
/// them there, as long as no grant shrinks and recovered consumption leaves
/// room.
pub proof fn every_operation_keeps_within_the_grants(t: TablesView, op: Op)
    requires
        in_order(t),
        within_grants(t.pools, t.rows),
        keeps_to_the_grant(t, op),
    ensures
        within_grants(applied(t, op).pools, applied(t, op).rows),
{
    match op {
        Op::Reserve { trust, request, now } => {
            reserve_keeps_the_books(t, trust, request, now);
        },
        Op::BeginDispatch { id } | Op::BeginSending { id, .. } => {
            if let Ok(mark) = dispatch_mark(t, id) {
                dispatching_keeps_the_books(t, id, mark, Transition::MarkIdUnknown, None);
            }
        },
        Op::AttachResponseId { id, response_id } => {
            dispatching_keeps_the_books(
                t,
                id,
                arbitrary(),
                Transition::AttachResponseId,
                Some(response_id),
            );
        },
        Op::MarkIdUnknown { id } => {
            dispatching_keeps_the_books(t, id, arbitrary(), Transition::MarkIdUnknown, None);
        },
        Op::Settle { id, response, accounting_rev, now } => {
            settling_keeps_the_books(t, id, response, accounting_rev, now);
        },
        Op::WriteOff { id } => {
            ending_keeps_the_books(t, id, Transition::Unrecoverable);
        },
        Op::ReleaseUnsent { id } => {
            ending_keeps_the_books(t, id, Transition::ReleaseUnsent);
        },
        Op::ReleaseRejected { id } => {
            ending_keeps_the_books(t, id, Transition::RejectBeforeProcessing);
        },
        Op::RollOver { epoch, grants } => {
            if epoch > t.meta.current_epoch {
                rollover_keeps_within_grants(t, epoch, grants);
            }
        },
        Op::Reopen { record } => {
            let mark = match record {
                Ok(Some(mark)) => Some(mark),
                _ => None,
            };
            normalizing_keeps_the_books(t, trust_of(t, record), mark);
        },
        _ => {},
    }
}

/// Law: whatever is done to a ledger keeps its tally exact, as long as nothing
/// is recovered from usage reporting.
pub proof fn every_operation_keeps_the_tally(t: TablesView, op: Op)
    requires
        in_order(t),
        tallied(t.pools, t.rows),
        adopts_nothing(op),
    ensures
        tallied(applied(t, op).pools, applied(t, op).rows),
{
    match op {
        Op::Reserve { trust, request, now } => {
            reserve_keeps_the_books(t, trust, request, now);
        },
        Op::BeginDispatch { id } | Op::BeginSending { id, .. } => {
            if let Ok(mark) = dispatch_mark(t, id) {
                dispatching_keeps_the_books(t, id, mark, Transition::MarkIdUnknown, None);
            }
        },
        Op::AttachResponseId { id, response_id } => {
            dispatching_keeps_the_books(
                t,
                id,
                arbitrary(),
                Transition::AttachResponseId,
                Some(response_id),
            );
        },
        Op::MarkIdUnknown { id } => {
            dispatching_keeps_the_books(t, id, arbitrary(), Transition::MarkIdUnknown, None);
        },
        Op::Settle { id, response, accounting_rev, now } => {
            settling_keeps_the_books(t, id, response, accounting_rev, now);
        },
        Op::WriteOff { id } => {
            ending_keeps_the_books(t, id, Transition::Unrecoverable);
        },
        Op::ReleaseUnsent { id } => {
            ending_keeps_the_books(t, id, Transition::ReleaseUnsent);
        },
        Op::ReleaseRejected { id } => {
            ending_keeps_the_books(t, id, Transition::RejectBeforeProcessing);
        },
        Op::RollOver { epoch, grants } => {
            rollover_keeps_the_books(t, epoch, grants);
        },
        Op::Reopen { record } => {
            let mark = match record {
                Ok(Some(mark)) => Some(mark),
                _ => None,
            };
            normalizing_keeps_the_books(t, trust_of(t, record), mark);
        },
        _ => {},
    }
}

/// Whatever is done to a ledger leaves its pool days with the grants they were
/// opened with.
proof fn lemma_grants_stay(t: TablesView, op: Op, grants: Seq<(Seq<char>, u64)>)
    requires
        in_order(t),
        granted_by(t.pools, grants),
        opens_with(op, grants),
    ensures
        granted_by(applied(t, op).pools, grants),
        op is RollOver ==> keeps_to_the_grant(t, op),
{
    match op {
        Op::Reserve { trust, request, now } => {
            reserve_keeps_the_books(t, trust, request, now);
        },
        Op::BeginDispatch { id } | Op::BeginSending { id, .. } => {
            if let Ok(mark) = dispatch_mark(t, id) {
                dispatching_keeps_the_books(t, id, mark, Transition::MarkIdUnknown, None);
            }
        },
        Op::Settle { id, response, accounting_rev, now } => {
            settling_keeps_the_books(t, id, response, accounting_rev, now);
        },
        Op::WriteOff { id } => {
            ending_keeps_the_books(t, id, Transition::Unrecoverable);
        },
        Op::ReleaseUnsent { id } => {
            ending_keeps_the_books(t, id, Transition::ReleaseUnsent);
        },
        Op::ReleaseRejected { id } => {
            ending_keeps_the_books(t, id, Transition::RejectBeforeProcessing);
        },
        Op::RollOver { epoch, .. } => {
            the_same_grants_open_the_same_day(t, epoch, grants);
        },
        Op::Adopt { adoptions, external } => {
            adoption_only_raises_consumption(t, adoptions, external);
        },
        Op::Reopen { record } => {
            let mark = match record {
                Ok(Some(mark)) => Some(mark),
                _ => None,
            };
            normalizing_keeps_the_books(t, trust_of(t, record), mark);
        },
        _ => {},
    }
}

/// Law: whatever the history of a ledger, its books are in order.
pub proof fn every_history_keeps_the_books_in_order(ops: Seq<Op>)
    requires
        ops_ok(ops),
    ensures
        in_order(replayed(fresh_tables(), ops)),
    decreases ops.len(),
{
    if ops.len() > 0 {
        lemma_shorter(ops);
        every_history_keeps_the_books_in_order(ops.drop_last());
        every_operation_keeps_the_books_in_order(
            replayed(fresh_tables(), ops.drop_last()),
            ops.last(),
        );
    }
}

/// A history without its last operation is as well formed.
proof fn lemma_shorter(ops: Seq<Op>)
    requires
        ops.len() > 0,
        ops_ok(ops),
    ensures
        ops_ok(ops.drop_last()),
        op_ok(ops.last()),
{
    assert(op_ok(ops[ops.len() - 1]));
    assert forall|i: int| 0 <= i < ops.drop_last().len() implies op_ok(
        #[trigger] ops.drop_last()[i],
    ) by {
        assert(ops.drop_last()[i] == ops[i]);
    }
}

/// Law: whatever the history of a ledger, for every pool and day the settled
/// consumption plus the maximum possible consumption of every request that may
/// have reached upstream fits the grant, but for what the provider reported
/// beyond the liabilities in that pool and on that day, as long as no grant
/// shrinks and recovered consumption leaves room.
pub proof fn no_history_exceeds_the_grant(ops: Seq<Op>)
    requires
        ops_ok(ops),
        all_keep_to_the_grant(fresh_tables(), ops),
    ensures
        ({
            let t = replayed(fresh_tables(), ops);
            &&& never_exceeds_the_grant(t)
            &&& within_grants(t.pools, t.rows)
        }),
    decreases ops.len(),
{
    if ops.len() > 0 {
        lemma_shorter(ops);
        no_history_exceeds_the_grant(ops.drop_last());
        every_history_keeps_the_books_in_order(ops.drop_last());
        every_operation_keeps_within_the_grants(
            replayed(fresh_tables(), ops.drop_last()),
            ops.last(),
        );
    }
    every_history_keeps_the_books_in_order(ops);
    ordered_books_never_exceed_the_grant(replayed(fresh_tables(), ops));
}

/// Law: whatever the history of a ledger, for every pool and day what is
/// counted as consumed is exactly what the requests of that pool and day
/// consumed, as long as nothing is recovered from usage reporting.
pub proof fn no_history_miscounts_consumption(ops: Seq<Op>)
    requires
        ops_ok(ops),
        forall|i: int| 0 <= i < ops.len() ==> adopts_nothing(#[trigger] ops[i]),
    ensures
        tallied(replayed(fresh_tables(), ops).pools, replayed(fresh_tables(), ops).rows),
    decreases ops.len(),
{
    if ops.len() > 0 {
        lemma_shorter(ops);
        assert(adopts_nothing(ops[ops.len() - 1]));
        assert forall|i: int| 0 <= i < ops.drop_last().len() implies adopts_nothing(
            #[trigger] ops.drop_last()[i],
        ) by {
            assert(adopts_nothing(ops[i]));
        }
        no_history_miscounts_consumption(ops.drop_last());
        every_history_keeps_the_books_in_order(ops.drop_last());
        every_operation_keeps_the_tally(replayed(fresh_tables(), ops.drop_last()), ops.last());
    }
}

/// A history that opens every day with the same grants and recovers nothing
/// keeps to the grant.
proof fn lemma_same_grants_keep(ops: Seq<Op>, grants: Seq<(Seq<char>, u64)>)
    requires
        ops_ok(ops),
        forall|i: int|
            0 <= i < ops.len() ==> adopts_nothing(#[trigger] ops[i]) && opens_with(ops[i], grants),
    ensures
        all_keep_to_the_grant(fresh_tables(), ops),
        granted_by(replayed(fresh_tables(), ops).pools, grants),
    decreases ops.len(),
{
    if ops.len() > 0 {
        lemma_shorter(ops);
        let before = replayed(fresh_tables(), ops.drop_last());
        let op = ops[ops.len() - 1];
        assert(adopts_nothing(op) && opens_with(op, grants));
        assert forall|i: int| 0 <= i < ops.drop_last().len() implies adopts_nothing(
            #[trigger] ops.drop_last()[i],
        ) && opens_with(ops.drop_last()[i], grants) by {
            assert(adopts_nothing(ops[i]));
        }
        lemma_same_grants_keep(ops.drop_last(), grants);
        every_history_keeps_the_books_in_order(ops.drop_last());
        no_history_exceeds_the_grant(ops.drop_last());
        lemma_grants_stay(before, op, grants);
    }
}

/// Law: whatever the history of a ledger whose every day is opened with the
/// same grants and that recovers nothing from usage reporting, restarts
/// included, for every pool and day: what is reserved is exactly the
/// liabilities of the active requests, what is consumed is exactly what the
/// requests consumed, and both together fit the grant, but for what the
/// provider reported beyond the liabilities in that pool and on that day.
pub proof fn upstream_liability_never_exceeds_the_grant(
    ops: Seq<Op>,
    grants: Seq<(Seq<char>, u64)>,
)
    requires
        ops_ok(ops),
        forall|i: int|
            0 <= i < ops.len() ==> adopts_nothing(#[trigger] ops[i]) && opens_with(ops[i], grants),
    ensures
        ({
            let t = replayed(fresh_tables(), ops);
            forall|i: int|
                0 <= i < t.pools.len() ==> {
                    let (pool_id, epoch) = ((#[trigger] t.pools[i]).pool_id, t.pools[i].epoch);
                    &&& grant_of(grants, pool_id) == Some(t.pools[i].granted as u64)
                    &&& t.pools[i].reserved == held(t.rows, pool_id, epoch)
                    &&& t.pools[i].consumed == spent(t.rows, pool_id, epoch)
                    &&& t.pools[i].reserved <= t.pools[i].granted
                    &&& t.pools[i].consumed + t.pools[i].reserved <= t.pools[i].granted + overrun(
                        t.rows,
                        pool_id,
                        epoch,
                    )
                }
        }),
{
    every_history_keeps_the_books_in_order(ops);
    lemma_same_grants_keep(ops, grants);
    no_history_exceeds_the_grant(ops);
    no_history_miscounts_consumption(ops);
}

// ---------------------------------------------------------------------------
// Closed providers.

/// The operation clears no latch of this scope.
pub open spec fn leaves_closed(op: Op, scope: Seq<char>) -> bool {
    op matches Op::ClearLatches { scope: cleared, .. } ==> cleared != scope
}

proof fn lemma_stays_closed(t: TablesView, ops: Seq<Op>, scope: Seq<char>, i: int)
    requires
        0 <= i < t.latches.len(),
        closes(t.latches[i], scope),
        forall|k: int| 0 <= k < ops.len() ==> leaves_closed(#[trigger] ops[k], scope),
    ensures
        i < replayed(t, ops).latches.len(),
        closes(replayed(t, ops).latches[i], scope),
    decreases ops.len(),
{
    if ops.len() > 0 {
        assert forall|k: int| 0 <= k < ops.drop_last().len() implies leaves_closed(
            #[trigger] ops.drop_last()[k],
            scope,
        ) by {
            assert(leaves_closed(ops[k], scope));
        }
        lemma_stays_closed(t, ops.drop_last(), scope, i);
        assert(leaves_closed(ops[ops.len() - 1], scope));
    }
}

/// Law: once a status has closed the provider that requests are reserved for,
/// then whatever is done to the ledger, restarts and new days included, no
/// request begins to be sent to it and none is reserved for it until its scope
/// is cleared.
pub proof fn a_closed_provider_stays_closed(
    t: TablesView,
    status: u16,
    at: i64,
    ops: Seq<Op>,
    id: ReservationId,
    body: Seq<u8>,
    written: HighWaterMark,
    trust: TrustVerdict,
    request: RequestView,
    now: i64,
)
    requires
        forall|k: int| 0 <= k < ops.len() ==> leaves_closed(#[trigger] ops[k], OPENAI_SCOPE@),
    ensures
        ({
            let closed = applied(
                t,
                Op::SetLatch { latch: closing_latch(OPENAI_SCOPE@, status, at) },
            );
            let later = replayed(closed, ops);
            &&& sending_outcome(later, id, body, written) is Err
            &&& !(reserve_outcome(later, trust, request, now).0 matches Ok(
                AdmissionView::Reserved(_),
            ))
        }),
{
    let closed = applied(t, Op::SetLatch { latch: closing_latch(OPENAI_SCOPE@, status, at) });
    let i = t.latches.len() as int;
    lemma_stays_closed(closed, ops, OPENAI_SCOPE@, i);
    a_closed_provider_is_sent_nothing(
        replayed(closed, ops),
        i,
        id,
        body,
        written,
        trust,
        request,
        now,
    );
}

/// Law: once a status has closed a provider that is counted in requests, then
/// whatever is done to the ledger, restarts included, no slot of it is granted
/// until its scope is cleared.
pub proof fn a_closed_route_stays_closed(
    t: TablesView,
    provider: Seq<char>,
    status: u16,
    at: i64,
    ops: Seq<Op>,
    epoch: i64,
    limit_per_day: u64,
    window: RequestWindow,
    now: i64,
)
    requires
        forall|k: int| 0 <= k < ops.len() ==> leaves_closed(#[trigger] ops[k], provider),
    ensures
        ({
            let closed = applied(t, Op::SetLatch { latch: closing_latch(provider, status, at) });
            let later = replayed(closed, ops);
            open_slot_outcome(later, provider, epoch, limit_per_day, window, now) matches Ok(
                (answer, after),
            ) && answer == SlotAnswer::Closed && after == later
        }),
{
    let closed = applied(t, Op::SetLatch { latch: closing_latch(provider, status, at) });
    let i = t.latches.len() as int;
    lemma_stays_closed(closed, ops, provider, i);
    a_closed_provider_grants_no_slot(
        replayed(closed, ops),
        i,
        provider,
        epoch,
        limit_per_day,
        window,
        now,
    );
}

// ---------------------------------------------------------------------------
// Open dispatches.

/// A dispatch that begins without the checks before sending finds room, and a
/// restart finds an external record that tells what was sent from what was not,
/// with room for the dispatch it interrupted.
pub open spec fn keeps_to_the_open_limit(t: TablesView, op: Op) -> bool {
    match op {
        Op::BeginDispatch { .. } => in_flight(t.rows) < MAX_IN_FLIGHT,
        Op::Reopen { record } => {
            let assessment = trust_of(t, record);
            &&& interpretable(assessment.verdict)
            &&& assessment.promote_to_id_unknown is Some ==> in_flight(t.rows) < MAX_IN_FLIGHT
        },
        _ => true,
    }
}

/// A group whose state changes among the open ones, or away from them, opens
/// no dispatch.
proof fn lemma_opens_none(t: TablesView, after: TablesView, root_id: i64)
    requires
        after.rows.len() == t.rows.len(),
        forall|i: int|
            0 <= i < t.rows.len() ==> {
                &&& (#[trigger] after.rows[i]).id == t.rows[i].id
                &&& after.rows[i].root_id == t.rows[i].root_id
                &&& t.rows[i].root_id != root_id ==> after.rows[i].state == t.rows[i].state
                &&& t.rows[i].root_id == root_id ==> (maybe_sent(after.rows[i].state)
                    ==> maybe_sent(t.rows[i].state))
            },
    ensures
        in_flight(after.rows) <= in_flight(t.rows),
{
    lemma_total_bounded(after.rows, flight_term(), t.rows, flight_term());
}

/// Learning about a dispatch opens none.
proof fn lemma_relabel_opens_none(
    t: TablesView,
    id: ReservationId,
    transition: Transition,
    response_id: Option<Seq<char>>,
)
    requires
        transition == Transition::AttachResponseId || transition == Transition::MarkIdUnknown,
    ensures
        relabel_outcome(t, id, transition, response_id) matches Ok(after) ==> in_flight(after.rows)
            <= in_flight(t.rows),
{
    lemma_group_head(t.rows, id.0);
    if let Ok(after) = relabel_outcome(t, id, transition, response_id) {
        lemma_opens_none(t, after, t.rows[group_of(t.rows, id.0)->Ok_0].root_id);
    }
}

/// Ending a reservation opens no dispatch.
proof fn lemma_ending_opens_none(t: TablesView, id: ReservationId, transition: Transition)
    requires
        transition == Transition::Unrecoverable || transition == Transition::ReleaseUnsent
            || transition == Transition::RejectBeforeProcessing,
    ensures
        ending_outcome(t, id, transition) matches Ok(after) ==> in_flight(after.rows) <= in_flight(
            t.rows,
        ),
{
    lemma_group_head(t.rows, id.0);
    if let Ok(after) = ending_outcome(t, id, transition) {
        lemma_opens_none(t, after, t.rows[group_of(t.rows, id.0)->Ok_0].root_id);
    }
}

/// Settling a reservation opens no dispatch.
proof fn lemma_settle_opens_none(
    t: TablesView,
    id: ReservationId,
    response: ResponseView,
    accounting_rev: i64,
    now: i64,
)
    ensures
        settle_outcome(t, id, response, accounting_rev, now) matches Ok((_, after)) ==> in_flight(
            after.rows,
        ) <= in_flight(t.rows),
{
    lemma_group_head(t.rows, id.0);
    if let Ok((_, after)) = settle_outcome(t, id, response, accounting_rev, now) {
        lemma_opens_none(t, after, t.rows[group_of(t.rows, id.0)->Ok_0].root_id);
    }
}

/// A restart opens at most the dispatch it finds in the external record.
proof fn lemma_reopen_opens_one(t: TablesView, record: Result<Option<HighWaterMark>, ()>)
    requires
        tables_ok(t),
        interpretable(trust_of(t, record).verdict),
    ensures
        open_outcome(t, record) matches Ok((assessment, after)) ==> in_flight(after.rows)
            <= in_flight(t.rows) + if assessment.promote_to_id_unknown is Some {
            1int
        } else {
            0int
        },
{
    if let Ok((assessment, after)) = open_outcome(t, record) {
        let named = |row: RowView|
            if assessment.promote_to_id_unknown == Some(row.id) {
                1int
            } else {
                0int
            };
        let both = |row: RowView| flight_term()(row) + named(row);
        assert forall|i: int| 0 <= i < t.rows.len() implies flight_term()(#[trigger] after.rows[i])
            <= both(t.rows[i]) by {}
        lemma_total_bounded(after.rows, flight_term(), t.rows, both);
        lemma_total_splits(t.rows, both, t.rows, flight_term(), t.rows, named);
        if exists|j: int| 0 <= j < t.rows.len() && named(#[trigger] t.rows[j]) == 1 {
            let j = choose|j: int| 0 <= j < t.rows.len() && named(#[trigger] t.rows[j]) == 1;
            assert forall|i: int| 0 <= i < t.rows.len() && i != j implies named(
                #[trigger] t.rows[i],
            ) == 0 by {
                assert(t.rows[i].id != t.rows[j].id);
            }
            lemma_one_term(t.rows, named, j);
        } else {
            lemma_total_zero(t.rows, named);
        }
    }
}

/// Law: whatever is done to a ledger with no more open dispatches than there
/// may be leaves no more of them, as long as a dispatch that begins without
/// the checks before sending, or that a restart interrupted, finds room, and
/// every restart finds an external record that tells what was sent.
#[verifier::spinoff_prover]
pub proof fn every_operation_keeps_to_the_open_limit(t: TablesView, op: Op)
    requires
        in_order(t),
        in_flight(t.rows) <= MAX_IN_FLIGHT,
        keeps_to_the_open_limit(t, op),
    ensures
        in_flight(applied(t, op).rows) <= MAX_IN_FLIGHT,
{
    let after = applied(t, op);
    match op {
        Op::Reserve { trust, request, now } => {
            if after != t {
                lemma_total_push(t.rows, after.rows.last(), flight_term());
            }
        },
        Op::BeginDispatch { id } | Op::BeginSending { id, .. } => {
            if let Ok(mark) = dispatch_mark(t, id) {
                beginning_opens_one_dispatch(t, id, mark);
            }
        },
        Op::AttachResponseId { id, response_id } => {
            lemma_relabel_opens_none(t, id, Transition::AttachResponseId, Some(response_id));
        },
        Op::MarkIdUnknown { id } => {
            lemma_relabel_opens_none(t, id, Transition::MarkIdUnknown, None);
        },
        Op::Settle { id, response, accounting_rev, now } => {
            lemma_settle_opens_none(t, id, response, accounting_rev, now);
        },
        Op::WriteOff { id } => {
            lemma_ending_opens_none(t, id, Transition::Unrecoverable);
        },
        Op::ReleaseUnsent { id } => {
            lemma_ending_opens_none(t, id, Transition::ReleaseUnsent);
        },
        Op::ReleaseRejected { id } => {
            lemma_ending_opens_none(t, id, Transition::RejectBeforeProcessing);
        },
        Op::RollOver { epoch, grants } => {
            a_new_day_opens_no_dispatch(t, epoch, grants);
        },
        Op::Reopen { record } => {
            lemma_reopen_opens_one(t, record);
        },
        _ => {},
    }
}

/// Everything in a history keeps to the limit on open dispatches.
pub open spec fn all_keep_to_the_open_limit(t: TablesView, ops: Seq<Op>) -> bool
    decreases ops.len(),
{
    ops.len() == 0 || (all_keep_to_the_open_limit(t, ops.drop_last()) && keeps_to_the_open_limit(
        replayed(t, ops.drop_last()),
        ops.last(),
    ))
}

/// Law: whatever the history of a ledger, no more dispatches are open than
/// there may be, as long as a dispatch that begins without the checks before
/// sending, or that a restart interrupted, finds room, and every restart finds
/// an external record that tells what was sent.
pub proof fn no_history_exceeds_the_open_limit(ops: Seq<Op>)
    requires
        ops_ok(ops),
        all_keep_to_the_open_limit(fresh_tables(), ops),
    ensures
        in_flight(replayed(fresh_tables(), ops).rows) <= MAX_IN_FLIGHT,
    decreases ops.len(),
{
    if ops.len() > 0 {
        lemma_shorter(ops);
        no_history_exceeds_the_open_limit(ops.drop_last());
        every_history_keeps_the_books_in_order(ops.drop_last());
        every_operation_keeps_to_the_open_limit(
            replayed(fresh_tables(), ops.drop_last()),
            ops.last(),
        );
    }
}

} // verus!
