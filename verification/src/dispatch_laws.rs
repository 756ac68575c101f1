//! What holds of every dispatch: what each answer of a provider leads to, and
//! how a relay and a retrieval go on.
use vstd::prelude::*;

use crate::dispatch::{
    supervise_step, DispositionView, HeadView, SuperviseActionView, SuperviseEventView,
    SupervisorView,
};
use crate::inventory::OpenDispatchView;
use crate::openrouter_dispatch::{
    attempt_step, Attempt, AttemptActionView, AttemptEventView, SentView,
};
use crate::relay::{
    at_top, new_relay, next_pending, relay_step, without_client, RelayActionView, RelayEventView,
    RelayPhaseView, RelayView,
};
use crate::requests::RequestSlot;
use crate::retrieval::{
    answer_leads_to, answer_of, backoff_of, next_delay, older_than, plan_for, AnswerView, Backoff,
    OutcomeView, PlanView, RetrievalPolicy, RetrievedView, WriteOffReason,
};
use crate::sending::SlotAnswer;
use crate::state::State;
use crate::status_policy::decision_for;
use crate::text::decimal_text;
use crate::transitions::Settlement;

verus! {

// ---------------------------------------------------------------------------
// Supervising.

/// The statuses that close a provider.
pub open spec fn is_closing(status: u16) -> bool {
    300 <= status < 400 || 401 <= status <= 404
}

/// The statuses that show the request was refused before it was processed.
pub open spec fn is_refusal(status: u16) -> bool {
    400 <= status <= 404 || status == 422 || status == 429
}

/// Law: while a provider is held back nothing is sent to it. The reservation is
/// released and the client told how long to wait, by the rate limit first; and
/// where nothing holds it back the dispatch begins.
pub proof fn a_provider_held_back_is_sent_nothing(
    rate_limited: Option<u64>,
    cooling_down: Option<u64>,
)
    ensures
        supervise_step(
            SupervisorView::Starting,
            SuperviseEventView::HeldBack { rate_limited, cooling_down },
        ) == Some(
            match rate_limited {
                Some(wait) => (
                    SupervisorView::Releasing { head: HeadView::RateLimited { retry_after: wait } },
                    SuperviseActionView::ReleaseUnsent,
                ),
                None => match cooling_down {
                    Some(wait) => (
                        SupervisorView::Releasing {
                            head: HeadView::CoolingDown { retry_after: wait },
                        },
                        SuperviseActionView::ReleaseUnsent,
                    ),
                    None => (SupervisorView::Beginning, SuperviseActionView::BeginDispatch),
                },
            },
        ),
{
}

/// Law: what an answer leads to. A redirect or a failure of credentials,
/// payment or endpoint closes the provider; a 429 closes its rate limit; and a
/// success has its limits noted. Then a success is relayed, a refusal read, and
/// anything else recorded as a failure before it is read.
pub proof fn each_answer_is_acted_on(status: u16)
    ensures
        supervise_step(SupervisorView::Sending, SuperviseEventView::Answered { status }) == Some(
            if is_closing(status) {
                (SupervisorView::Closing { status }, SuperviseActionView::CloseProvider { status })
            } else if status == 429 {
                (SupervisorView::Noting { status }, SuperviseActionView::NoteRateLimited)
            } else if 200 <= status < 300 {
                (SupervisorView::Noting { status }, SuperviseActionView::NoteHeaders)
            } else {
                (SupervisorView::Noting { status }, SuperviseActionView::NoteNothing)
            },
        ),
        supervise_step(SupervisorView::Noting { status }, SuperviseEventView::Noted) == Some(
            if 200 <= status < 300 {
                (SupervisorView::Relaying, SuperviseActionView::Relay)
            } else if is_refusal(status) {
                (SupervisorView::Reading { status }, SuperviseActionView::ReadBody)
            } else {
                (SupervisorView::RecordingRefusal { status }, SuperviseActionView::RecordFailure)
            },
        ),
        is_closing(status) ==> supervise_step(
            SupervisorView::Closing { status },
            SuperviseEventView::Ledger(Ok(())),
        ) == Some(
            if status >= 400 {
                (SupervisorView::Reading { status }, SuperviseActionView::ReadBody)
            } else {
                (SupervisorView::RecordingRefusal { status }, SuperviseActionView::RecordFailure)
            },
        ),
        supervise_step(SupervisorView::RecordingRefusal { status }, SuperviseEventView::Noted)
            == Some((SupervisorView::Reading { status }, SuperviseActionView::ReadBody)),
{
}

/// Law: once its body is read, a refusal before processing gives the
/// reservation back, and any other answer that is no success holds it; the
/// client is given the status and the body as they came.
pub proof fn a_refusal_is_given_back_or_held(status: u16, body: Seq<u8>)
    requires
        !(200 <= status < 300),
    ensures
        supervise_step(SupervisorView::Reading { status }, SuperviseEventView::Body(body)) == Some(
            if is_refusal(status) {
                (
                    SupervisorView::ReleasingRejected { status, body },
                    SuperviseActionView::ReleaseRejected,
                )
            } else {
                (
                    SupervisorView::Holding {
                        head: HeadView::Refused { status, decision: decision_for(status), body },
                    },
                    SuperviseActionView::Hold,
                )
            },
        ),
        forall|result: Result<(), Seq<char>>|
            (#[trigger] supervise_step(
                SupervisorView::ReleasingRejected { status, body },
                SuperviseEventView::Ledger(result),
            )) == Some(
                (
                    SupervisorView::Delivering {
                        disposition: match result {
                            Ok(_) => DispositionView::ReleasedRejected,
                            Err(detail) => DispositionView::LedgerFailed(detail),
                        },
                    },
                    SuperviseActionView::Deliver(
                        HeadView::Refused { status, decision: decision_for(status), body },
                    ),
                ),
            ),
{
}

/// Law: a dispatch that cannot be made durable is never sent and its
/// reservation released; one that fails on its way is recorded as a failure and
/// held; and whatever became of the reservation is what the supervisor ends
/// with.
pub proof fn a_dispatch_ends_as_its_reservation_does(
    head: HeadView,
    detail: Seq<char>,
    disposition: DispositionView,
    result: Result<(), Seq<char>>,
)
    ensures
        supervise_step(SupervisorView::Beginning, SuperviseEventView::Ledger(Ok(()))) == Some(
            (SupervisorView::Sending, SuperviseActionView::Send),
        ),
        supervise_step(SupervisorView::Beginning, SuperviseEventView::Ledger(Err(detail))) == Some(
            (
                SupervisorView::Releasing { head: HeadView::NotSent(detail) },
                SuperviseActionView::ReleaseUnsent,
            ),
        ),
        supervise_step(SupervisorView::Sending, SuperviseEventView::SendFailed { detail }) == Some(
            (SupervisorView::Recording { detail }, SuperviseActionView::RecordFailure),
        ),
        supervise_step(SupervisorView::Recording { detail }, SuperviseEventView::Noted) == Some(
            (
                SupervisorView::Holding { head: HeadView::OutcomeUnknown(detail) },
                SuperviseActionView::Hold,
            ),
        ),
        supervise_step(SupervisorView::Releasing { head }, SuperviseEventView::Ledger(result))
            == Some(
            (
                SupervisorView::Delivering {
                    disposition: match result {
                        Ok(_) => DispositionView::ReleasedUnsent,
                        Err(why) => DispositionView::LedgerFailed(why),
                    },
                },
                SuperviseActionView::Deliver(head),
            ),
        ),
        supervise_step(SupervisorView::Holding { head }, SuperviseEventView::Ledger(result))
            == Some(
            (
                SupervisorView::Delivering {
                    disposition: match result {
                        Ok(_) => DispositionView::HeldAsUnknown,
                        Err(why) => DispositionView::LedgerFailed(why),
                    },
                },
                SuperviseActionView::Deliver(head),
            ),
        ),
        supervise_step(
            SupervisorView::Delivering { disposition },
            SuperviseEventView::Delivered,
        ) == Some((SupervisorView::Done, SuperviseActionView::Finish(disposition))),
        supervise_step(SupervisorView::Relaying, SuperviseEventView::Relayed(disposition)) == Some(
            (SupervisorView::Done, SuperviseActionView::Finish(disposition)),
        ),
{
}

// ---------------------------------------------------------------------------
// The second route.

/// Law: an attempt takes a slot where no rate limit holds it back, sends where
/// the slot is granted, and otherwise ends with what stood in its way: how much
/// of the day is used, how long the window is full, that the provider is
/// closed, or that the ledger failed.
pub proof fn an_attempt_needs_a_slot(
    rate_limited: Option<u64>,
    used: i64,
    limit: i64,
    seconds: i64,
    detail: Seq<char>,
)
    requires
        1 <= seconds <= 18_446_744_073,
    ensures
        attempt_step(Attempt::Starting, AttemptEventView::HeldBack { rate_limited }) == Some(
            match rate_limited {
                Some(wait) => (
                    Attempt::Done,
                    AttemptActionView::Finish(SentView::HeldBack { retry_after: wait }),
                ),
                None => (Attempt::TakingSlot, AttemptActionView::TakeSlot),
            },
        ),
        attempt_step(
            Attempt::TakingSlot,
            AttemptEventView::Slot(Ok(SlotAnswer::Slot(RequestSlot::Granted { used, limit }))),
        ) == Some((Attempt::Sending, AttemptActionView::Send)),
        attempt_step(
            Attempt::TakingSlot,
            AttemptEventView::Slot(Ok(SlotAnswer::Slot(RequestSlot::Exhausted { used, limit }))),
        ) == Some((Attempt::Done, AttemptActionView::Finish(SentView::Exhausted { used, limit }))),
        attempt_step(
            Attempt::TakingSlot,
            AttemptEventView::Slot(
                Ok(SlotAnswer::Slot(RequestSlot::WindowFull { retry_after_seconds: seconds })),
            ),
        ) matches Some((next, AttemptActionView::Finish(SentView::HeldBack { retry_after })))
            && next == Attempt::Done && retry_after == seconds * 1_000_000_000,
        attempt_step(
            Attempt::TakingSlot,
            AttemptEventView::Slot(Ok(SlotAnswer::Closed)),
        ) == Some((Attempt::Done, AttemptActionView::Finish(SentView::Closed))),
        attempt_step(Attempt::TakingSlot, AttemptEventView::Slot(Err(detail))) == Some(
            (Attempt::Done, AttemptActionView::Finish(SentView::Failed(detail))),
        ),
{
}

/// Law: what an attempt's answer leads to: a success is streamed, a 429 closes
/// the rate limit, a redirect or a failure of credentials, payment or endpoint
/// closes the provider, and every refusal is read and passed on.
pub proof fn each_attempt_answer_is_acted_on(status: u16, body: Seq<u8>, detail: Seq<char>)
    ensures
        attempt_step(Attempt::Sending, AttemptEventView::Answered { status }) == Some(
            if 200 <= status < 300 {
                (Attempt::Done, AttemptActionView::Stream)
            } else if status == 429 {
                (Attempt::Noting, AttemptActionView::NoteRateLimited)
            } else if is_closing(status) {
                (Attempt::Closing { status }, AttemptActionView::CloseProvider { status })
            } else {
                (Attempt::Reading { status }, AttemptActionView::ReadBody)
            },
        ),
        attempt_step(Attempt::Noting, AttemptEventView::Noted) == Some(
            (Attempt::Reading { status: 429 }, AttemptActionView::ReadBody),
        ),
        attempt_step(Attempt::Closing { status }, AttemptEventView::Closed(Ok(()))) == Some(
            (Attempt::Reading { status }, AttemptActionView::ReadBody),
        ),
        attempt_step(Attempt::Closing { status }, AttemptEventView::Closed(Err(detail))) == Some(
            (Attempt::Done, AttemptActionView::Finish(SentView::Failed(detail))),
        ),
        attempt_step(Attempt::Reading { status }, AttemptEventView::Body(body)) == Some(
            (Attempt::Done, AttemptActionView::Finish(SentView::Refused { status, body })),
        ),
        attempt_step(Attempt::Sending, AttemptEventView::SendFailed { detail }) == Some(
            (Attempt::Done, AttemptActionView::Finish(SentView::Failed(detail))),
        ),
{
}

// ---------------------------------------------------------------------------
// Relaying.

/// Law: what a relay does between chunks. With the client there, or the
/// reservation settled, it waits for the next. With the client gone and nothing
/// settled it tells upstream to stop where it knows the id, holds the
/// reservation where the time to learn it is over, and otherwise waits until
/// then.
pub proof fn a_relay_goes_on_by_who_is_there(s: RelayView, now: u64)
    ensures
        ({
            let (next, action) = at_top(s, now);
            &&& next == (RelayView { phase: next.phase, ..s })
            &&& if s.downstream || s.settled is Some {
                action == (RelayActionView::Wait { until: None }) && next.phase is Waiting
            } else {
                match s.response_id {
                    Some(id) => action == (RelayActionView::Cancel { response_id: id })
                        && next.phase == (RelayPhaseView::Cancelling { response_id: id }),
                    None => match s.deadline {
                        Some(deadline) if deadline <= now => action == RelayActionView::Hold
                            && next.phase is Holding,
                        _ => action == (RelayActionView::Wait { until: s.deadline })
                            && next.phase is Waiting,
                    },
                }
            }
        }),
{
}

/// Law: a chunk goes to the client once everything it revealed is dealt with,
/// as long as the client is there.
pub proof fn a_chunk_is_forwarded_last(s: RelayView, now: u64)
    requires
        s.pending.len() == 0,
    ensures
        s.downstream ==> next_pending(s, now) == (
            RelayView { phase: RelayPhaseView::Forwarding, ..s },
            RelayActionView::Forward,
        ),
        !s.downstream ==> next_pending(s, now) == at_top(s, now),
{
}

/// Law: a client that goes leaves the relay the time that was set to learn the
/// id, from then on; one whose chunk was not delivered is gone.
pub proof fn a_client_that_goes_starts_the_wait(s: RelayView, now: u64, delivered: bool)
    requires
        now + s.id_wait <= u64::MAX,
    ensures
        ({
            let gone = without_client(s, now);
            &&& !gone.downstream
            &&& gone.deadline == (if s.deadline is Some {
                s.deadline
            } else {
                Some((now + s.id_wait) as u64)
            })
            &&& gone == (RelayView { downstream: gone.downstream, deadline: gone.deadline, ..s })
            &&& s.phase is Waiting ==> relay_step(s, RelayEventView::ClientGone, now) == Some(
                at_top(gone, now),
            )
            &&& s.phase is Forwarding ==> relay_step(
                s,
                RelayEventView::Forwarded { delivered },
                now,
            ) == Some(
                if delivered {
                    at_top(s, now)
                } else {
                    at_top(gone, now)
                },
            )
        }),
{
}

/// Law: what a relay is told of an action is taken as it was told: an id that
/// was attached is known, a settlement that was made is kept, a response that
/// was stopped waits for its retrieval by the id that it was stopped under, and
/// a ledger that failed ends the relay.
pub proof fn a_relay_takes_what_it_is_told(
    s: RelayView,
    id: Seq<char>,
    settlement: Settlement,
    detail: Seq<char>,
    now: u64,
)
    ensures
        s.phase == (RelayPhaseView::Attaching { response_id: id }) ==> relay_step(
            s,
            RelayEventView::Attached(Ok(())),
            now,
        ) == Some(next_pending(RelayView { response_id: Some(id), ..s }, now)),
        s.phase is Settling ==> relay_step(s, RelayEventView::Settled(Ok(settlement)), now) == Some(
            next_pending(RelayView { settled: Some(settlement), ..s }, now),
        ),
        s.phase == (RelayPhaseView::Cancelling { response_id: id }) ==> (relay_step(
            s,
            RelayEventView::Cancelled,
            now,
        ) matches Some((_, RelayActionView::Finish(end))) && end
            == (DispositionView::AwaitingRetrieval { response_id: id })),
        s.phase is Holding ==> (relay_step(s, RelayEventView::Held(Ok(())), now) matches Some(
            (_, RelayActionView::Finish(end)),
        ) && end == DispositionView::HeldAsUnknown),
        s.phase is Attaching ==> (relay_step(
            s,
            RelayEventView::Attached(Err(detail)),
            now,
        ) matches Some((_, RelayActionView::Finish(end))) && end == DispositionView::LedgerFailed(
            detail,
        )),
        s.phase is Settling ==> (relay_step(
            s,
            RelayEventView::Settled(Err(detail)),
            now,
        ) matches Some((_, RelayActionView::Finish(end))) && end == DispositionView::LedgerFailed(
            detail,
        )),
        s.phase is Holding ==> (relay_step(s, RelayEventView::Held(Err(detail)), now) matches Some(
            (_, RelayActionView::Finish(end)),
        ) && end == DispositionView::LedgerFailed(detail)),
{
}

/// Law: a stream that ends before its response did is recorded as a failure,
/// and then left to retrieval where the id is known and held where it is not;
/// one that ends settled ends the relay.
pub proof fn a_stream_that_breaks_is_a_failure(s: RelayView, now: u64)
    ensures
        s.phase is Waiting ==> match s.settled {
            Some(settlement) => relay_step(s, RelayEventView::Ended, now) matches Some(
                (_, RelayActionView::Finish(end)),
            ) && end == DispositionView::Settled(settlement),
            None => relay_step(s, RelayEventView::Ended, now) matches Some((next, action))
                && next.phase is RecordingFailure && action is RecordFailure,
        },
        s.phase is RecordingFailure ==> match s.response_id {
            Some(id) => relay_step(s, RelayEventView::FailureRecorded, now) matches Some(
                (_, RelayActionView::Finish(end)),
            ) && end == (DispositionView::AwaitingRetrieval { response_id: id }),
            None => relay_step(s, RelayEventView::FailureRecorded, now) matches Some(
                (next, action),
            ) && next.phase is Holding && action is Hold,
        },
{
}

/// Law: a relay starts with nothing known and nothing settled, and the wait for
/// the id has begun where the client was gone before it.
pub proof fn a_relay_starts_with_nothing_known(delivered: bool, id_wait: u64, now: u64)
    requires
        now + id_wait <= u64::MAX,
    ensures
        ({
            let s = new_relay(delivered, id_wait, now);
            &&& s.downstream == delivered
            &&& s.id_wait == id_wait
            &&& s.response_id is None
            &&& s.settled is None
            &&& s.pending.len() == 0
            &&& s.phase is Waiting
            &&& delivered ==> s.deadline is None
            &&& !delivered ==> s.deadline == Some((now + id_wait) as u64)
        }),
{
}

// ---------------------------------------------------------------------------
// Retrieving.

/// Law: a dispatch is old enough once as many nanoseconds as are asked for have
/// passed since it was made, by the second.
pub proof fn age_is_the_time_since(created_at: i64, now_unix: i64, nanos: u64)
    ensures
        now_unix >= created_at ==> (older_than(created_at, now_unix, nanos) <==> (now_unix
            - created_at) * 1_000_000_000 >= nanos),
        now_unix < created_at ==> (older_than(created_at, now_unix, nanos) <==> nanos == 0),
{
}

/// Law: what a sweep does with an open dispatch. One whose id is lost is
/// written off once it is old enough; one with an id is retrieved by it once it
/// is due; anything else waits.
pub proof fn a_sweep_plans_by_what_is_known(
    policy: RetrievalPolicy,
    backoffs: Seq<Backoff>,
    dispatch: OpenDispatchView,
    now_unix: i64,
    now: u64,
)
    ensures
        match plan_for(policy, backoffs, dispatch, now_unix, now) {
            PlanView::WriteOff(reason) => {
                &&& reason == WriteOffReason::NoResponseId
                &&& dispatch.state == State::DispatchedIdUnknown
                &&& older_than(dispatch.created_at, now_unix, policy.write_off_unknown_after)
            },
            PlanView::Retrieve { response_id } => {
                &&& dispatch.state == State::DispatchedWithId
                &&& dispatch.response_id == Some(response_id)
                &&& backoff_of(backoffs, dispatch.id) matches Some(b) ==> b.next_attempt <= now
            },
            PlanView::Wait => {
                ||| dispatch.state == State::DispatchedIdUnknown && !older_than(
                    dispatch.created_at,
                    now_unix,
                    policy.write_off_unknown_after,
                )
                ||| dispatch.state == State::DispatchedWithId && (dispatch.response_id is None || (
                backoff_of(backoffs, dispatch.id) matches Some(b) && now < b.next_attempt))
                ||| dispatch.state != State::DispatchedIdUnknown && dispatch.state
                    != State::DispatchedWithId
            },
        },
{
}

/// Law: the wait before the next attempt starts at the first delay and doubles,
/// up to the cap.
pub proof fn a_wait_doubles_up_to_its_cap(policy: RetrievalPolicy, previous: Option<Backoff>)
    requires
        policy.ok(),
        previous matches Some(b) ==> b.delay <= u64::MAX / 2,
    ensures
        previous is None ==> next_delay(policy, previous) == policy.initial_backoff,
        previous matches Some(b) ==> {
            let delay = next_delay(policy, previous);
            &&& delay <= 2 * b.delay
            &&& delay <= policy.max_backoff
            &&& delay == 2 * b.delay || delay == policy.max_backoff
        },
{
}

/// Law: an answer is a response only with status 200. A response that is not
/// found is written off once the dispatch is old enough, and every other
/// status, and an answer that did not come, is tried again later, with what was
/// said.
pub proof fn an_answer_is_believed_by_its_status(
    policy: RetrievalPolicy,
    created_at: i64,
    now_unix: i64,
    response_id: Seq<char>,
    status: u16,
    body: Seq<u8>,
    detail: Seq<char>,
)
    ensures
        answer_of(200, Ok(body)) == AnswerView::Body(body),
        answer_of(200, Err(detail)) == AnswerView::Failed(detail),
        status != 200 ==> answer_of(status, Ok(body)) == AnswerView::Status(status) && answer_of(
            status,
            Err(detail),
        ) == AnswerView::Status(status),
        answer_leads_to(policy, created_at, now_unix, response_id, AnswerView::Status(status))
            == if status == 404 && older_than(created_at, now_unix, policy.trust_not_found_after) {
            RetrievedView::WriteOff(WriteOffReason::NotFoundUpstream)
        } else {
            RetrievedView::Later(
                OutcomeView::RetryLater("upstream returned "@ + decimal_text(status as nat)),
            )
        },
        answer_leads_to(policy, created_at, now_unix, response_id, AnswerView::Failed(detail))
            == RetrievedView::Later(OutcomeView::RetryLater(detail)),
{
}

} // verus!
