//! The last checks before a reservation's request is sent, and the closing of
//! a provider.
//!
//! A provider is closed by a latch, so it stays closed across restarts until
//! someone clears it. A request is sent only with the body its liability was
//! computed for, and only while fewer than [`MAX_IN_FLIGHT`] dispatches are
//! open.
use vstd::prelude::*;
use vstd::string::*;

use crate::admission::{digest, digest_text};
use crate::error::{plain, ErrorView, LedgerError};
use crate::hwm::HighWaterMark;
use crate::ledger::{
    latch_applies, nothing_is_admitted_untrusted_or_latched, reserve_outcome, AdmissionView, Ledger,
    RequestView, ReservationId, MAX_IN_FLIGHT,
};
use crate::requests::{slot_outcome, RequestSlot, RequestWindow};
use crate::tables::{
    count_in_flight, flight_term, has_root, in_flight, lemma_one_term, lemma_total_push,
    lemma_total_splits, row_ok, tables_ok, views, LatchRow, LatchView, RowView, TablesView,
};
use crate::text::{decimal_text, push_decimal, str_eq};
use crate::transitions::{
    begin_outcome, committed, group_of, head_index, lemma_group_head, lemma_head_index, load_group,
};
use crate::trust::TrustVerdict;

verus! {

/// The scope whose latches close the provider that requests are reserved for:
/// the one that refuses every reservation.
pub const OPENAI_SCOPE: &'static str = "global";

// ---------------------------------------------------------------------------
// Closing a provider.

/// The latch that a status closes a provider with.
pub open spec fn closing_latch(scope: Seq<char>, status: u16, now: i64) -> LatchView {
    LatchView {
        scope,
        reason: "the provider answered with a status that needs remediation"@,
        evidence: Some("status "@ + decimal_text(status as nat)),
        set_at: now,
        cleared: None,
    }
}

/// An open latch of exactly this scope.
pub open spec fn closes(latch: LatchView, scope: Seq<char>) -> bool {
    latch.cleared is None && latch.scope == scope
}

/// The oldest open latch of exactly this scope.
pub open spec fn closed_by(latches: Seq<LatchView>, scope: Seq<char>) -> Option<LatchView>
    decreases latches.len(),
{
    if latches.len() == 0 {
        None
    } else {
        match closed_by(latches.drop_last(), scope) {
            Some(latch) => Some(latch),
            None => if closes(latches.last(), scope) {
                Some(latches.last())
            } else {
                None
            },
        }
    }
}

proof fn lemma_closed_by_extends(latches: Seq<LatchView>, n: int, scope: Seq<char>)
    requires
        0 <= n <= latches.len(),
        closed_by(latches.take(n), scope) is Some,
    ensures
        closed_by(latches, scope) == closed_by(latches.take(n), scope),
    decreases latches.len() - n,
{
    if n < latches.len() {
        assert(latches.take(n + 1).drop_last() =~= latches.take(n));
        lemma_closed_by_extends(latches, n + 1, scope);
    } else {
        assert(latches.take(n) =~= latches);
    }
}

/// A scope is closed by one of its open latches.
proof fn lemma_closed_by_one(latches: Seq<LatchView>, scope: Seq<char>) -> (i: int)
    requires
        closed_by(latches, scope) is Some,
    ensures
        0 <= i < latches.len(),
        closes(latches[i], scope),
    decreases latches.len(),
{
    if closed_by(latches.drop_last(), scope) is Some {
        lemma_closed_by_one(latches.drop_last(), scope)
    } else {
        latches.len() - 1
    }
}

/// An open latch of a scope closes it.
pub proof fn lemma_closes(latches: Seq<LatchView>, scope: Seq<char>, i: int)
    requires
        0 <= i < latches.len(),
        closes(latches[i], scope),
    ensures
        closed_by(latches, scope) is Some,
    decreases latches.len(),
{
    if i < latches.len() - 1 {
        lemma_closes(latches.drop_last(), scope, i);
    }
}

/// The position of the oldest open latch of exactly this scope.
fn find_closing(latches: &Vec<LatchRow>, scope: &str) -> (found: Option<usize>)
    ensures
        match closed_by(views(latches@), scope@) {
            Some(latch) => found matches Some(k) && k < latches@.len() && latches@[k as int]@
                == latch,
            None => found is None,
        },
{
    let ghost all = views(latches@);
    let mut i: usize = 0;
    while i < latches.len()
        invariant
            i <= latches@.len(),
            all == views(latches@),
            closed_by(all.take(i as int), scope@) is None,
        decreases latches.len() - i,
    {
        let latch = &latches[i];
        assert(all.take(i + 1).drop_last() =~= all.take(i as int));
        assert(all.take(i + 1).last() == latch@);
        if latch.cleared.is_none() && str_eq(latch.scope.as_str(), scope) {
            proof {
                lemma_closed_by_extends(all, i + 1, scope@);
            }
            return Some(i);
        }
        i = i + 1;
    }
    assert(all.take(i as int) =~= all);
    None
}

// ---------------------------------------------------------------------------
// The checks before sending.

/// Whether this body may be sent on a reservation, or why not.
pub open spec fn clearance(t: TablesView, id: ReservationId, body: Seq<u8>) -> Result<
    (),
    ErrorView,
> {
    match group_of(t.rows, id.0) {
        Err(error) => Err(error),
        Ok(head) => match closed_by(t.latches, OPENAI_SCOPE@) {
            Some(latch) => Err(
                ErrorView::ProviderClosed { scope: latch.scope, reason: latch.reason },
            ),
            None => if in_flight(t.rows) >= MAX_IN_FLIGHT {
                Err(ErrorView::TooManyInFlight { open: in_flight(t.rows) as usize })
            } else if t.rows[head].request_digest != digest_text(body) {
                Err(ErrorView::BodyMismatch(t.rows[head].root_id))
            } else {
                Ok(())
            },
        },
    }
}

/// A dispatch that begins only where its body may be sent.
pub open spec fn sending_outcome(
    t: TablesView,
    id: ReservationId,
    body: Seq<u8>,
    written: HighWaterMark,
) -> Result<TablesView, ErrorView> {
    match clearance(t, id, body) {
        Err(error) => Err(error),
        Ok(()) => begin_outcome(t, id, written),
    }
}

/// What the request for a slot of a provider is answered.
#[derive(Debug, Clone, Copy, PartialEq, Eq, Structural)]
pub enum SlotAnswer {
    Slot(RequestSlot),
    /// The provider is closed. Nothing was spent.
    Closed,
}

/// Taking one request slot of a provider that is not closed: what it answers
/// and the tables after it.
pub open spec fn open_slot_outcome(
    t: TablesView,
    provider: Seq<char>,
    epoch: i64,
    limit_per_day: u64,
    window: RequestWindow,
    now: i64,
) -> Result<(SlotAnswer, TablesView), ErrorView> {
    if closed_by(t.latches, provider) is Some {
        Ok((SlotAnswer::Closed, t))
    } else {
        match slot_outcome(t, provider, epoch, limit_per_day, window, now) {
            Ok((slot, after)) => Ok((SlotAnswer::Slot(slot), after)),
            Err(error) => Err(error),
        }
    }
}

impl Ledger {
    /// Closes a provider on a status. It stays closed, across restarts and
    /// daily resets, until its scope is cleared.
    pub fn close_provider(&mut self, scope: &str, status: u16, now: i64) -> (result: Result<
        (),
        LedgerError,
    >)
        requires
            old(self).ok(),
        ensures
            final(self).ok(),
            final(self).trust == old(self).trust,
            result is Ok,
            final(self).tables@ == (TablesView {
                latches: old(self).tables@.latches.push(closing_latch(scope@, status, now)),
                ..old(self).tables@
            }),
    {
        let mut evidence = String::from_str("status ");
        push_decimal(&mut evidence, status as u128);
        self.insert_latch(
            scope.to_owned(),
            String::from_str("the provider answered with a status that needs remediation"),
            Some(evidence),
            now,
        );
        Ok(())
    }

    /// Whether this body may be sent on a reservation. Asked before the
    /// external record of the dispatch is written.
    pub fn may_send(&self, id: ReservationId, body: &[u8]) -> (result: Result<(), LedgerError>)
        ensures
            plain(result) == clearance(self.tables@, id, body@),
    {
        let head = match load_group(&self.tables.rows, id.0) {
            Err(error) => return Err(error),
            Ok(head) => head,
        };
        match find_closing(&self.tables.latches, OPENAI_SCOPE) {
            Some(k) => {
                let latch = &self.tables.latches[k];
                return Err(
                    LedgerError::ProviderClosed {
                        scope: latch.scope.clone(),
                        reason: latch.reason.clone(),
                    },
                );
            },
            None => {},
        }
        let open = count_in_flight(&self.tables.rows);
        if open >= MAX_IN_FLIGHT {
            return Err(LedgerError::TooManyInFlight { open });
        }
        let row = &self.tables.rows[head];
        assert(self.tables@.rows[head as int] == row@);
        if str_eq(row.request_digest.as_str(), digest(body).as_str()) {
            Ok(())
        } else {
            Err(LedgerError::BodyMismatch(row.root_id))
        }
    }

    /// Durably records that this body is about to be sent on a reservation.
    /// `written` is what [`Ledger::begin_dispatch`] takes. If this returns an
    /// error the request must not be sent.
    pub fn begin_sending(&mut self, id: ReservationId, body: &[u8], written: HighWaterMark) -> (
    result: Result<(), LedgerError>)
        requires
            old(self).ok(),
        ensures
            final(self).ok(),
            final(self).trust == old(self).trust,
            committed(
                old(self).tables@,
                final(self).tables@,
                result,
                sending_outcome(old(self).tables@, id, body@, written),
            ),
    {
        match self.may_send(id, body) {
            Err(error) => Err(error),
            Ok(()) => self.begin_dispatch(id, written),
        }
    }

    /// Takes one request slot of a provider, where no latch of its scope
    /// closes it.
    pub fn take_open_slot(
        &mut self,
        provider: &str,
        epoch: i64,
        limit_per_day: u64,
        window: RequestWindow,
        now: i64,
    ) -> (result: Result<SlotAnswer, LedgerError>)
        requires
            old(self).ok(),
        ensures
            final(self).ok(),
            final(self).trust == old(self).trust,
            match open_slot_outcome(
                old(self).tables@,
                provider@,
                epoch,
                limit_per_day,
                window,
                now,
            ) {
                Ok((answer, after)) => {
                    &&& result == Ok::<SlotAnswer, LedgerError>(answer)
                    &&& final(self).tables@ == after
                },
                Err(error) => result matches Err(e) && e@ == error && final(self).tables@ == old(
                    self,
                ).tables@,
            },
    {
        if find_closing(&self.tables.latches, provider).is_some() {
            return Ok(SlotAnswer::Closed);
        }
        match self.take_request_slot(provider, epoch, limit_per_day, window, now) {
            Ok(slot) => Ok(SlotAnswer::Slot(slot)),
            Err(error) => Err(error),
        }
    }
}

/// Law: while a provider is closed nothing begins to be sent to it, and
/// nothing more is reserved for it.
pub proof fn a_closed_provider_is_sent_nothing(
    t: TablesView,
    i: int,
    id: ReservationId,
    body: Seq<u8>,
    written: HighWaterMark,
    trust: TrustVerdict,
    request: RequestView,
    now: i64,
)
    requires
        0 <= i < t.latches.len(),
        closes(t.latches[i], OPENAI_SCOPE@),
    ensures
        sending_outcome(t, id, body, written) is Err,
        !(reserve_outcome(t, trust, request, now).0 matches Ok(AdmissionView::Reserved(_))),
{
    lemma_closes(t.latches, OPENAI_SCOPE@, i);
    assert(latch_applies(t.latches[i], request.pool_id, request.model_snapshot));
    nothing_is_admitted_untrusted_or_latched(t, trust, request, now, i);
}

/// Law: while a provider that is counted in requests is closed, no slot of it
/// is granted and none is spent.
pub proof fn a_closed_provider_grants_no_slot(
    t: TablesView,
    i: int,
    provider: Seq<char>,
    epoch: i64,
    limit_per_day: u64,
    window: RequestWindow,
    now: i64,
)
    requires
        0 <= i < t.latches.len(),
        closes(t.latches[i], provider),
    ensures
        open_slot_outcome(t, provider, epoch, limit_per_day, window, now) == Ok::<
            (SlotAnswer, TablesView),
            ErrorView,
        >((SlotAnswer::Closed, t)),
{
    lemma_closes(t.latches, provider, i);
}

/// Law: what begins to be sent has the digest of the body that was reserved.
pub proof fn only_the_reserved_body_is_sent(
    t: TablesView,
    id: ReservationId,
    body: Seq<u8>,
    written: HighWaterMark,
)
    requires
        sending_outcome(t, id, body, written) is Ok,
    ensures
        group_of(t.rows, id.0) matches Ok(head) && t.rows[head].request_digest == digest_text(body),
{
}

/// Law: a reservation that has just been made may be sent at once, with the
/// body it was made for.
pub proof fn what_was_just_reserved_may_be_sent(
    t: TablesView,
    trust: TrustVerdict,
    request: RequestView,
    now: i64,
    body: Seq<u8>,
)
    requires
        tables_ok(t),
        request.request_digest == digest_text(body),
    ensures
        ({
            let (outcome, after) = reserve_outcome(t, trust, request, now);
            outcome matches Ok(AdmissionView::Reserved(id)) ==> clearance(after, id, body) is Ok
        }),
{
    let (outcome, after) = reserve_outcome(t, trust, request, now);
    if let Ok(AdmissionView::Reserved(id)) = outcome {
        if let Some(latch) = closed_by(t.latches, OPENAI_SCOPE@) {
            let i = lemma_closed_by_one(t.latches, OPENAI_SCOPE@);
            nothing_is_admitted_untrusted_or_latched(t, trust, request, now, i);
        }
        let last = t.rows.len() as int;
        assert(after.rows.drop_last() =~= t.rows);
        lemma_head_index(after.rows, id.0, 0, last);
        let head = head_index(after.rows, id.0, 0);
        if head < last {
            assert(row_ok(t.rows[head], t.meta.current_epoch));
            assert(t.rows[head] == after.rows[head]);
            assert(t.rows[head].id <= t.rows[last - 1].id);
        }
        assert forall|i: int|
            0 <= i < last implies (#[trigger] after.rows[i]).root_id != id.0 by {
            assert(row_ok(t.rows[i], t.meta.current_epoch));
            assert(t.rows[i].id <= t.rows[last - 1].id);
        }
        lemma_total_push(t.rows, after.rows[last], flight_term());
    }
}

/// Law: a request that begins to be sent is one more open dispatch, and with
/// it no more are open than there may be.
pub proof fn sending_keeps_to_the_open_limit(
    t: TablesView,
    id: ReservationId,
    body: Seq<u8>,
    written: HighWaterMark,
)
    requires
        tables_ok(t),
    ensures
        sending_outcome(t, id, body, written) matches Ok(after) ==> in_flight(after.rows)
            == in_flight(t.rows) + 1 && in_flight(after.rows) <= MAX_IN_FLIGHT,
{
    beginning_opens_one_dispatch(t, id, written);
}

/// Law: a dispatch that begins is one more open dispatch.
pub proof fn beginning_opens_one_dispatch(t: TablesView, id: ReservationId, written: HighWaterMark)
    requires
        tables_ok(t),
    ensures
        begin_outcome(t, id, written) matches Ok(after) ==> in_flight(after.rows) == in_flight(
            t.rows,
        ) + 1,
{
    if let Ok(after) = begin_outcome(t, id, written) {
        lemma_group_head(t.rows, id.0);
        let head = group_of(t.rows, id.0)->Ok_0;
        let root_id = t.rows[head].root_id;
        assert(has_root(t.rows, root_id));
        let first = choose|k: int|
            0 <= k < t.rows.len() && (#[trigger] t.rows[k]).id == root_id && t.rows[k].root_id
                == root_id;
        let named = |row: RowView|
            if row.id == root_id {
                1int
            } else {
                0int
            };
        lemma_one_term(t.rows, named, first);
        lemma_total_splits(after.rows, flight_term(), t.rows, flight_term(), t.rows, named);
    }
}

} // verus!
