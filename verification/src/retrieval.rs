//! Settling reservations that their stream could not settle.
//!
//! A dispatch that ended with a known response id, because the client
//! disconnected and upstream was cancelled or the stream ended without a
//! terminal event, is settled by retrieving the response. A dispatch with no
//! id has nothing to retrieve and is written off after a short hold.
//!
//! Retrieval never releases a reservation on weak evidence. A response still
//! in progress is retried later. "Not found" is trusted only once the
//! response is old enough that eventual consistency no longer explains it.
//! Anything else, transport errors, unreadable bodies, other statuses, is
//! retried with backoff, and a reservation left unsettled too long is flagged
//! for attention rather than written off.
//!
//! Ages are measured in trusted time; backoff uses nanoseconds on a monotonic
//! clock, as do the policy's durations.
use vstd::prelude::*;
use vstd::string::*;

use crate::codec::{json_document, read_json};
use crate::inventory::{OpenDispatch, OpenDispatchView};
use crate::json::{option_view, Json, JsonView};
use crate::ledger::ReservationId;
use crate::relay::completed_of;
use crate::responses::{summary_of, terminal_status, ResponseSummary};
use crate::state::State;
use crate::tables::views;
use crate::text::{decimal_text, push_decimal, str_eq};
use crate::transitions::{CompletedResponse, ResponseView, Settlement};

verus! {

#[derive(Debug, Clone, Copy, PartialEq, Eq, Structural)]
pub struct RetrievalPolicy {
    /// The first retry delay, doubling up to `max_backoff`.
    pub initial_backoff: u64,
    pub max_backoff: u64,
    /// A dispatch with no response id is written off once this old.
    pub write_off_unknown_after: u64,
    /// Upstream's "not found" is believed only once the dispatch is this old.
    pub trust_not_found_after: u64,
    /// Past this age an unsettled reservation is flagged. It is not written
    /// off.
    pub escalate_after: u64,
    pub accounting_rev: i64,
}

impl RetrievalPolicy {
    /// Backoffs that can be doubled.
    pub open spec fn ok(self) -> bool {
        self.initial_backoff <= u64::MAX / 2 && self.max_backoff <= u64::MAX / 2
    }
}

#[derive(Debug, Clone, Copy, PartialEq, Eq, Structural)]
pub enum WriteOffReason {
    NoResponseId,
    NotFoundUpstream,
}

#[derive(Debug, PartialEq, Eq)]
pub enum Outcome {
    Settled(Settlement),
    StillRunning,
    WrittenOff(WriteOffReason),
    RetryLater(String),
    /// Backing off, or too young to act on.
    Waiting,
}

pub enum OutcomeView {
    Settled(Settlement),
    StillRunning,
    WrittenOff(WriteOffReason),
    RetryLater(Seq<char>),
    Waiting,
}

impl View for Outcome {
    type V = OutcomeView;

    open spec fn view(&self) -> OutcomeView {
        match *self {
            Outcome::Settled(settlement) => OutcomeView::Settled(settlement),
            Outcome::StillRunning => OutcomeView::StillRunning,
            Outcome::WrittenOff(reason) => OutcomeView::WrittenOff(reason),
            Outcome::RetryLater(why) => OutcomeView::RetryLater(why@),
            Outcome::Waiting => OutcomeView::Waiting,
        }
    }
}

#[derive(Debug, PartialEq, Eq)]
pub struct SweepEntry {
    pub reservation: ReservationId,
    pub outcome: Outcome,
    pub escalate: bool,
}

/// When a reservation is tried again, and how long the last wait was.
#[derive(Debug, Clone, Copy, PartialEq, Eq, Structural)]
pub struct Backoff {
    pub id: ReservationId,
    pub next_attempt: u64,
    pub delay: u64,
}

/// What a sweep does with an open dispatch.
#[derive(Debug, PartialEq, Eq)]
pub enum Plan {
    WriteOff(WriteOffReason),
    Retrieve { response_id: String },
    Wait,
}

pub enum PlanView {
    WriteOff(WriteOffReason),
    Retrieve { response_id: Seq<char> },
    Wait,
}

impl View for Plan {
    type V = PlanView;

    open spec fn view(&self) -> PlanView {
        match *self {
            Plan::WriteOff(reason) => PlanView::WriteOff(reason),
            Plan::Retrieve { response_id } => PlanView::Retrieve { response_id: response_id@ },
            Plan::Wait => PlanView::Wait,
        }
    }
}

/// What upstream answered to a retrieval.
#[derive(Debug)]
pub enum Answer {
    /// No answer came, or its body could not be read.
    Failed(String),
    /// An answer with a status other than 200.
    Status(u16),
    /// The body of an answer with status 200.
    Body(Vec<u8>),
}

pub enum AnswerView {
    Failed(Seq<char>),
    Status(u16),
    Body(Seq<u8>),
}

impl View for Answer {
    type V = AnswerView;

    open spec fn view(&self) -> AnswerView {
        match *self {
            Answer::Failed(detail) => AnswerView::Failed(detail@),
            Answer::Status(status) => AnswerView::Status(status),
            Answer::Body(bytes) => AnswerView::Body(bytes@),
        }
    }
}

/// What a status and a body, or why it could not be read, are as an answer:
/// only status 200 makes the body one.
pub open spec fn answer_of(status: u16, body: Result<Seq<u8>, Seq<char>>) -> AnswerView {
    if status != 200 {
        AnswerView::Status(status)
    } else {
        match body {
            Ok(bytes) => AnswerView::Body(bytes),
            Err(detail) => AnswerView::Failed(detail),
        }
    }
}

pub open spec fn body_view(body: Result<Vec<u8>, String>) -> Result<Seq<u8>, Seq<char>> {
    match body {
        Ok(bytes) => Ok(bytes@),
        Err(detail) => Err(detail@),
    }
}

impl Answer {
    /// The answer that came with a status and a body, or why the body could
    /// not be read.
    pub fn of(status: u16, body: Result<Vec<u8>, String>) -> (answer: Answer)
        ensures
            answer@ == answer_of(status, body_view(body)),
    {
        if status != 200 {
            return Answer::Status(status);
        }
        match body {
            Ok(bytes) => Answer::Body(bytes),
            Err(detail) => Answer::Failed(detail),
        }
    }
}

/// What an answer leads to.
#[derive(Debug)]
pub enum Retrieved {
    WriteOff(WriteOffReason),
    Settle(CompletedResponse),
    Later(Outcome),
}

pub enum RetrievedView {
    WriteOff(WriteOffReason),
    Settle(ResponseView),
    Later(OutcomeView),
}

impl View for Retrieved {
    type V = RetrievedView;

    open spec fn view(&self) -> RetrievedView {
        match *self {
            Retrieved::WriteOff(reason) => RetrievedView::WriteOff(reason),
            Retrieved::Settle(completed) => RetrievedView::Settle(completed@),
            Retrieved::Later(outcome) => RetrievedView::Later(outcome@),
        }
    }
}

/// How old a dispatch is, in whole seconds.
pub open spec fn age_seconds(created_at: i64, now_unix: i64) -> nat {
    if now_unix > created_at {
        (now_unix - created_at) as nat
    } else {
        0
    }
}

/// Whether a dispatch is at least this old.
pub open spec fn older_than(created_at: i64, now_unix: i64, nanos: u64) -> bool {
    age_seconds(created_at, now_unix) * 1_000_000_000 >= nanos
}

/// Where a reservation stands among backoffs, from a position on.
pub open spec fn backoff_index(backoffs: Seq<Backoff>, id: ReservationId, from: int) -> int
    decreases backoffs.len() - from,
{
    if from < 0 || from >= backoffs.len() || backoffs[from].id == id {
        from
    } else {
        backoff_index(backoffs, id, from + 1)
    }
}

pub open spec fn backoff_of(backoffs: Seq<Backoff>, id: ReservationId) -> Option<Backoff> {
    let at = backoff_index(backoffs, id, 0);
    if at < backoffs.len() {
        Some(backoffs[at])
    } else {
        None
    }
}

/// Whether a reservation may be tried again.
pub open spec fn is_due(backoffs: Seq<Backoff>, id: ReservationId, now: u64) -> bool {
    match backoff_of(backoffs, id) {
        Some(backoff) => now >= backoff.next_attempt,
        None => true,
    }
}

/// What a sweep does with an open dispatch.
pub open spec fn plan_for(
    policy: RetrievalPolicy,
    backoffs: Seq<Backoff>,
    dispatch: OpenDispatchView,
    now_unix: i64,
    now: u64,
) -> PlanView {
    match (dispatch.state, dispatch.response_id) {
        (State::DispatchedIdUnknown, _) => if older_than(
            dispatch.created_at,
            now_unix,
            policy.write_off_unknown_after,
        ) {
            PlanView::WriteOff(WriteOffReason::NoResponseId)
        } else {
            PlanView::Wait
        },
        (State::DispatchedWithId, Some(response_id)) => if is_due(backoffs, dispatch.id, now) {
            PlanView::Retrieve { response_id }
        } else {
            PlanView::Wait
        },
        _ => PlanView::Wait,
    }
}

/// How long the next wait is.
pub open spec fn next_delay(policy: RetrievalPolicy, previous: Option<Backoff>) -> u64 {
    match previous {
        Some(backoff) => if backoff.delay * 2 <= policy.max_backoff {
            (backoff.delay * 2) as u64
        } else {
            policy.max_backoff
        },
        None => policy.initial_backoff,
    }
}

/// The backoffs once a reservation is to be tried again later.
pub open spec fn scheduled(
    policy: RetrievalPolicy,
    backoffs: Seq<Backoff>,
    id: ReservationId,
    now: u64,
) -> Seq<Backoff> {
    let delay = next_delay(policy, backoff_of(backoffs, id));
    let entry = Backoff { id, next_attempt: (now + delay) as u64, delay };
    let at = backoff_index(backoffs, id, 0);
    if at < backoffs.len() {
        backoffs.update(at, entry)
    } else {
        backoffs.push(entry)
    }
}

/// The backoffs without a reservation.
pub open spec fn forgotten(backoffs: Seq<Backoff>, id: ReservationId) -> Seq<Backoff> {
    backoffs.filter(|b: Backoff| b.id != id)
}

/// The backoffs of the dispatches that are still open.
pub open spec fn still_open(backoffs: Seq<Backoff>, open: Seq<OpenDispatchView>) -> Seq<Backoff> {
    backoffs.filter(|b: Backoff| is_listed(open, b.id))
}

pub open spec fn is_listed(open: Seq<OpenDispatchView>, id: ReservationId) -> bool {
    exists|i: int| 0 <= i < open.len() && (#[trigger] open[i]).id == id
}

/// What a retrieved document leads to. Only a terminal response with the id
/// that was asked for is settled.
pub open spec fn document_leads_to(document: Option<JsonView>, response_id: Seq<char>) -> RetrievedView {
    let unreadable = RetrievedView::Later(
        OutcomeView::RetryLater("the retrieved response could not be read"@),
    );
    match document {
        None => unreadable,
        Some(value) => match summary_of(value) {
            None => unreadable,
            Some(summary) => if summary.id != response_id {
                unreadable
            } else if !terminal_status(summary.status) {
                RetrievedView::Later(OutcomeView::StillRunning)
            } else {
                RetrievedView::Settle(completed_of(summary))
            },
        },
    }
}

/// What an answer leads to.
pub open spec fn answer_leads_to(
    policy: RetrievalPolicy,
    created_at: i64,
    now_unix: i64,
    response_id: Seq<char>,
    answer: AnswerView,
) -> RetrievedView {
    match answer {
        AnswerView::Failed(detail) => RetrievedView::Later(OutcomeView::RetryLater(detail)),
        AnswerView::Status(status) => if status == 404 && older_than(
            created_at,
            now_unix,
            policy.trust_not_found_after,
        ) {
            RetrievedView::WriteOff(WriteOffReason::NotFoundUpstream)
        } else {
            RetrievedView::Later(
                OutcomeView::RetryLater("upstream returned "@ + decimal_text(status as nat)),
            )
        },
        AnswerView::Body(bytes) => document_leads_to(
            match json_document(bytes) {
                Ok(value) => Some(value),
                Err(_) => None,
            },
            response_id,
        ),
    }
}

/// Settles what streams could not: what to do with each open dispatch, and
/// when to try again.
#[derive(Debug)]
pub struct RetrievalWorker {
    pub policy: RetrievalPolicy,
    pub backoffs: Vec<Backoff>,
}

/// Finds a reservation among backoffs.
fn find_backoff(backoffs: &Vec<Backoff>, id: ReservationId) -> (found: Option<usize>)
    ensures
        match found {
            Some(i) => i < backoffs@.len() && backoff_index(backoffs@, id, 0) == i
                && backoffs@[i as int].id == id,
            None => backoff_index(backoffs@, id, 0) == backoffs@.len(),
        },
{
    let mut i: usize = 0;
    while i < backoffs.len()
        invariant
            i <= backoffs@.len(),
            backoff_index(backoffs@, id, i as int) == backoff_index(backoffs@, id, 0),
        decreases backoffs.len() - i,
    {
        if backoffs[i].id.0 == id.0 {
            return Some(i);
        }
        i = i + 1;
    }
    None
}

/// Whether a dispatch is at least this old.
fn old_enough(created_at: i64, now_unix: i64, nanos: u64) -> (yes: bool)
    ensures
        yes == older_than(created_at, now_unix, nanos),
{
    let age: i128 = now_unix as i128 - created_at as i128;
    if age <= 0 {
        return nanos == 0;
    }
    age * 1_000_000_000 >= nanos as i128
}

/// What a retrieved document leads to (`None` where it is not JSON).
pub fn read_retrieved(document: Option<&Json>, response_id: &str) -> (result: Retrieved)
    ensures
        result@ == document_leads_to(option_view(document), response_id@),
{
    let summary = match document {
        Some(value) => ResponseSummary::from_object(value),
        None => None,
    };
    match summary {
        Some(found) => {
            if !str_eq(found.id.as_str(), response_id) {
                unreadable()
            } else if !found.is_terminal() {
                Retrieved::Later(Outcome::StillRunning)
            } else {
                Retrieved::Settle(
                    CompletedResponse {
                        usage: found.usage,
                        model: or_empty(found.model),
                        service_tier: or_empty(found.service_tier),
                    },
                )
            }
        },
        None => unreadable(),
    }
}

fn unreadable() -> (result: Retrieved)
    ensures
        result@ == RetrievedView::Later(
            OutcomeView::RetryLater("the retrieved response could not be read"@),
        ),
{
    Retrieved::Later(
        Outcome::RetryLater(String::from_str("the retrieved response could not be read")),
    )
}

fn or_empty(text: Option<String>) -> (out: String)
    ensures
        out@ == match text {
            Some(s) => s@,
            None => Seq::empty(),
        },
{
    match text {
        Some(s) => s,
        None => {
            let none = String::new();
            assert(none@ =~= Seq::empty());
            none
        },
    }
}

impl RetrievalWorker {
    pub open spec fn ok(&self) -> bool {
        &&& self.policy.ok()
        &&& forall|i: int|
            0 <= i < self.backoffs@.len() ==> (#[trigger] self.backoffs@[i]).delay <= u64::MAX / 2
    }

    pub fn new(policy: RetrievalPolicy) -> (worker: RetrievalWorker)
        requires
            policy.ok(),
        ensures
            worker.ok(),
            worker.policy == policy,
            worker.backoffs@.len() == 0,
    {
        RetrievalWorker { policy, backoffs: Vec::new() }
    }

    /// Begins a pass over the open dispatches: what is no longer open is
    /// forgotten.
    pub fn begin_sweep(&mut self, open: &Vec<OpenDispatch>)
        requires
            old(self).ok(),
        ensures
            final(self).ok(),
            final(self).policy == old(self).policy,
            final(self).backoffs@ == still_open(old(self).backoffs@, views(open@)),
    {
        let ghost all = self.backoffs@;
        let ghost listed = views(open@);
        let mut kept: Vec<Backoff> = Vec::new();
        proof {
            reveal(Seq::filter);
            assert(all.take(0) =~= Seq::empty());
        }
        let mut i: usize = 0;
        while i < self.backoffs.len()
            invariant
                i <= self.backoffs@.len(),
                all == self.backoffs@,
                listed == views(open@),
                kept@ == still_open(all.take(i as int), listed),
                forall|k: int|
                    0 <= k < all.len() ==> (#[trigger] all[k]).delay <= u64::MAX / 2,
                forall|k: int|
                    0 <= k < kept@.len() ==> (#[trigger] kept@[k]).delay <= u64::MAX / 2,
            decreases self.backoffs.len() - i,
        {
            let backoff = self.backoffs[i];
            proof {
                reveal(Seq::filter);
                assert(all.take(i + 1).drop_last() =~= all.take(i as int));
                assert(all.take(i + 1).last() == backoff);
            }
            if listed_among(open, backoff.id) {
                kept.push(backoff);
            }
            i = i + 1;
        }
        assert(all.take(all.len() as int) =~= all);
        self.backoffs = kept;
    }

    /// What is to be done with an open dispatch.
    pub fn plan(&self, dispatch: &OpenDispatch, now_unix: i64, now: u64) -> (plan: Plan)
        ensures
            plan@ == plan_for(self.policy, self.backoffs@, dispatch@, now_unix, now),
    {
        match (dispatch.state, &dispatch.response_id) {
            (State::DispatchedIdUnknown, _) => {
                if old_enough(
                    dispatch.created_at,
                    now_unix,
                    self.policy.write_off_unknown_after,
                ) {
                    Plan::WriteOff(WriteOffReason::NoResponseId)
                } else {
                    Plan::Wait
                }
            },
            (State::DispatchedWithId, Some(response_id)) => {
                if self.due(dispatch.id, now) {
                    Plan::Retrieve { response_id: response_id.clone() }
                } else {
                    Plan::Wait
                }
            },
            _ => Plan::Wait,
        }
    }

    /// Takes upstream's answer: what it leads to, with the next attempt
    /// scheduled where the reservation stays open.
    pub fn answered(
        &mut self,
        dispatch: &OpenDispatch,
        response_id: &str,
        answer: Answer,
        now_unix: i64,
        now: u64,
    ) -> (result: Retrieved)
        requires
            old(self).ok(),
            now <= u64::MAX / 2,
        ensures
            final(self).ok(),
            final(self).policy == old(self).policy,
            result@ == answer_leads_to(
                old(self).policy,
                dispatch.created_at,
                now_unix,
                response_id@,
                answer@,
            ),
            final(self).backoffs@ == (if result@ is Later {
                scheduled(old(self).policy, old(self).backoffs@, dispatch.id, now)
            } else {
                old(self).backoffs@
            }),
    {
        let result = match answer {
            Answer::Failed(detail) => Retrieved::Later(Outcome::RetryLater(detail)),
            Answer::Status(status) => {
                if status == 404 && old_enough(
                    dispatch.created_at,
                    now_unix,
                    self.policy.trust_not_found_after,
                ) {
                    Retrieved::WriteOff(WriteOffReason::NotFoundUpstream)
                } else {
                    let mut why = String::from_str("upstream returned ");
                    push_decimal(&mut why, status as u128);
                    Retrieved::Later(Outcome::RetryLater(why))
                }
            },
            Answer::Body(bytes) => match read_json(bytes.as_slice()) {
                Ok(value) => read_retrieved(Some(&value), response_id),
                Err(_) => read_retrieved(None, response_id),
            },
        };
        if matches!(result, Retrieved::Later(_)) {
            self.schedule(dispatch.id, now);
        }
        result
    }

    /// A reservation was settled or written off: it is not tried again.
    pub fn closed(&mut self, id: ReservationId)
        requires
            old(self).ok(),
        ensures
            final(self).ok(),
            final(self).policy == old(self).policy,
            final(self).backoffs@ == forgotten(old(self).backoffs@, id),
    {
        let ghost all = self.backoffs@;
        let mut kept: Vec<Backoff> = Vec::new();
        proof {
            reveal(Seq::filter);
            assert(all.take(0) =~= Seq::empty());
        }
        let mut i: usize = 0;
        while i < self.backoffs.len()
            invariant
                i <= self.backoffs@.len(),
                all == self.backoffs@,
                kept@ == forgotten(all.take(i as int), id),
                forall|k: int|
                    0 <= k < all.len() ==> (#[trigger] all[k]).delay <= u64::MAX / 2,
                forall|k: int|
                    0 <= k < kept@.len() ==> (#[trigger] kept@[k]).delay <= u64::MAX / 2,
            decreases self.backoffs.len() - i,
        {
            let backoff = self.backoffs[i];
            proof {
                reveal(Seq::filter);
                assert(all.take(i + 1).drop_last() =~= all.take(i as int));
                assert(all.take(i + 1).last() == backoff);
            }
            if backoff.id.0 != id.0 {
                kept.push(backoff);
            }
            i = i + 1;
        }
        assert(all.take(all.len() as int) =~= all);
        self.backoffs = kept;
    }

    /// Whether a dispatch that is still open needs attention.
    pub fn escalates(&self, dispatch: &OpenDispatch, now_unix: i64) -> (yes: bool)
        ensures
            yes == older_than(dispatch.created_at, now_unix, self.policy.escalate_after),
    {
        old_enough(dispatch.created_at, now_unix, self.policy.escalate_after)
    }

    /// Whether a reservation may be tried again.
    fn due(&self, id: ReservationId, now: u64) -> (yes: bool)
        ensures
            yes == is_due(self.backoffs@, id, now),
    {
        match find_backoff(&self.backoffs, id) {
            Some(i) => now >= self.backoffs[i].next_attempt,
            None => true,
        }
    }

    /// Schedules the next attempt.
    fn schedule(&mut self, id: ReservationId, now: u64)
        requires
            old(self).ok(),
            now <= u64::MAX / 2,
        ensures
            final(self).ok(),
            final(self).policy == old(self).policy,
            final(self).backoffs@ == scheduled(old(self).policy, old(self).backoffs@, id, now),
    {
        match find_backoff(&self.backoffs, id) {
            Some(i) => {
                let doubled: u64 = self.backoffs[i].delay * 2;
                let delay: u64 = if doubled <= self.policy.max_backoff {
                    doubled
                } else {
                    self.policy.max_backoff
                };
                self.backoffs.set(i, Backoff { id, next_attempt: now + delay, delay });
            },
            None => {
                let delay: u64 = self.policy.initial_backoff;
                self.backoffs.push(Backoff { id, next_attempt: now + delay, delay });
            },
        }
    }
}

/// Whether a reservation is among the open dispatches.
fn listed_among(open: &Vec<OpenDispatch>, id: ReservationId) -> (yes: bool)
    ensures
        yes == is_listed(views(open@), id),
{
    let ghost all = views(open@);
    let mut i: usize = 0;
    while i < open.len()
        invariant
            i <= open@.len(),
            all == views(open@),
            forall|k: int| 0 <= k < i ==> (#[trigger] all[k]).id != id,
        decreases open.len() - i,
    {
        assert(all[i as int].id == open@[i as int].id);
        if open[i].id.0 == id.0 {
            return true;
        }
        i = i + 1;
    }
    false
}

// ---------------------------------------------------------------------------
// Laws.

/// Law: nothing is written off on weak evidence. A dispatch with a known id is
/// written off only once upstream says it is not found and it is old enough
/// for that to be believed.
pub proof fn a_known_response_is_written_off_only_on_an_old_not_found(
    policy: RetrievalPolicy,
    backoffs: Seq<Backoff>,
    dispatch: OpenDispatchView,
    now_unix: i64,
    now: u64,
    response_id: Seq<char>,
    answer: AnswerView,
)
    ensures
        dispatch.state is DispatchedWithId ==> !(plan_for(
            policy,
            backoffs,
            dispatch,
            now_unix,
            now,
        ) is WriteOff),
        answer_leads_to(policy, dispatch.created_at, now_unix, response_id, answer) is WriteOff
            ==> answer == AnswerView::Status(404) && older_than(
            dispatch.created_at,
            now_unix,
            policy.trust_not_found_after,
        ),
{
}

/// Law: a dispatch with no id is written off once the hold is over, and not
/// before.
pub proof fn an_unknown_id_is_held_until_its_deadline(
    policy: RetrievalPolicy,
    backoffs: Seq<Backoff>,
    dispatch: OpenDispatchView,
    now_unix: i64,
    now: u64,
)
    requires
        dispatch.state is DispatchedIdUnknown,
    ensures
        (plan_for(policy, backoffs, dispatch, now_unix, now) is WriteOff) == older_than(
            dispatch.created_at,
            now_unix,
            policy.write_off_unknown_after,
        ),
{
}

/// Law: a reservation that is to be tried later is not tried again before its
/// delay is over, and then it is; the delay never exceeds the longer of the
/// first and the cap.
pub proof fn a_retry_waits_its_turn(
    policy: RetrievalPolicy,
    backoffs: Seq<Backoff>,
    id: ReservationId,
    now: u64,
    later: u64,
)
    requires
        policy.ok(),
        now <= u64::MAX / 2,
    ensures
        is_due(scheduled(policy, backoffs, id, now), id, later) == (later >= now + next_delay(
            policy,
            backoff_of(backoffs, id),
        )),
        next_delay(policy, backoff_of(backoffs, id)) <= policy.initial_backoff || next_delay(
            policy,
            backoff_of(backoffs, id),
        ) <= policy.max_backoff,
{
    lemma_backoff_index(backoffs, id, 0);
    let delay = next_delay(policy, backoff_of(backoffs, id));
    let entry = Backoff { id, next_attempt: (now + delay) as u64, delay };
    let at = backoff_index(backoffs, id, 0);
    let after = scheduled(policy, backoffs, id, now);
    lemma_index_is_first(after, id, 0, at);
}

proof fn lemma_backoff_index(backoffs: Seq<Backoff>, id: ReservationId, from: int)
    requires
        0 <= from <= backoffs.len(),
    ensures
        from <= backoff_index(backoffs, id, from) <= backoffs.len(),
        forall|i: int|
            from <= i < backoff_index(backoffs, id, from) ==> (#[trigger] backoffs[i]).id != id,
    decreases backoffs.len() - from,
{
    if from < backoffs.len() && backoffs[from].id != id {
        lemma_backoff_index(backoffs, id, from + 1);
    }
}

proof fn lemma_index_is_first(backoffs: Seq<Backoff>, id: ReservationId, from: int, at: int)
    requires
        0 <= from <= at < backoffs.len(),
        backoffs[at].id == id,
        forall|i: int| from <= i < at ==> (#[trigger] backoffs[i]).id != id,
    ensures
        backoff_index(backoffs, id, from) == at,
    decreases at - from,
{
    if from < at {
        lemma_index_is_first(backoffs, id, from + 1, at);
    }
}

/// Law: scheduling one reservation again leaves when every other is tried as it
/// was.
pub proof fn scheduling_touches_one_reservation(
    policy: RetrievalPolicy,
    backoffs: Seq<Backoff>,
    id: ReservationId,
    now: u64,
    other: ReservationId,
)
    requires
        other != id,
    ensures
        backoff_of(scheduled(policy, backoffs, id, now), other) == backoff_of(backoffs, other),
{
    let after = scheduled(policy, backoffs, id, now);
    lemma_backoff_index(backoffs, id, 0);
    lemma_backoff_index(backoffs, other, 0);
    lemma_backoff_index(after, other, 0);
    let at = backoff_index(backoffs, id, 0);
    let place = backoff_index(backoffs, other, 0);
    lemma_backoff_found(backoffs, id, 0);
    if place < backoffs.len() {
        lemma_backoff_found(backoffs, other, 0);
        assert(after[place].id == other);
        assert forall|i: int| 0 <= i < place implies (#[trigger] after[i]).id != other by {
            assert(backoffs[i].id != other);
        }
        lemma_index_is_first(after, other, 0, place);
        assert(after[place] == backoffs[place]);
    } else {
        lemma_backoff_found(after, other, 0);
        let then = backoff_index(after, other, 0);
        if then < after.len() {
            if then < backoffs.len() && then != at {
                assert(backoffs[then].id != other);
            }
        }
    }
}

proof fn lemma_backoff_found(backoffs: Seq<Backoff>, id: ReservationId, from: int)
    requires
        0 <= from <= backoffs.len(),
    ensures
        backoff_index(backoffs, id, from) < backoffs.len() ==> backoffs[backoff_index(
            backoffs,
            id,
            from,
        )].id == id,
    decreases backoffs.len() - from,
{
    if from < backoffs.len() && backoffs[from].id != id {
        lemma_backoff_found(backoffs, id, from + 1);
    }
}

/// Law: a reservation that is forgotten is due at once, and so is one that is no
/// longer open; one that still is waits as it did.
pub proof fn what_is_forgotten_is_due(
    backoffs: Seq<Backoff>,
    open: Seq<OpenDispatchView>,
    b: Backoff,
    id: ReservationId,
)
    ensures
        forgotten(backoffs, id).contains(b) <==> backoffs.contains(b) && b.id != id,
        still_open(backoffs, open).contains(b) <==> backoffs.contains(b) && exists|i: int|
            0 <= i < open.len() && (#[trigger] open[i]).id == b.id,
{
    broadcast use vstd::seq_lib::group_seq_properties;

    lemma_filter_contains(backoffs, |x: Backoff| x.id != id, b);
    lemma_filter_contains(backoffs, |x: Backoff| is_listed(open, x.id), b);
}

proof fn lemma_filter_contains(s: Seq<Backoff>, keep: spec_fn(Backoff) -> bool, b: Backoff)
    ensures
        s.filter(keep).contains(b) <==> s.contains(b) && keep(b),
    decreases s.len(),
{
    reveal(Seq::filter);
    if s.len() == 0 {
        assert(s.filter(keep) =~= Seq::empty());
    } else {
        let front = s.drop_last();
        lemma_filter_contains(front, keep, b);
        let kept = front.filter(keep);
        if s.filter(keep).contains(b) {
            let i = s.filter(keep).index_of(b);
            if keep(s.last()) && i == kept.len() {
                assert(s[s.len() - 1] == b);
            } else {
                assert(kept[i] == b);
                assert(kept.contains(b));
                let j = front.index_of(b);
                assert(s[j] == b);
            }
        }
        if s.contains(b) && keep(b) {
            let j = s.index_of(b);
            if j < front.len() {
                assert(front[j] == b);
                assert(front.contains(b));
                let i = kept.index_of(b);
                assert(s.filter(keep)[i] == b);
            } else {
                assert(s.filter(keep)[kept.len() as int] == b);
            }
        }
    }
}

} // verus!
