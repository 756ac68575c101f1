//! Relaying a response to the client while it is observed, attached and
//! settled.
//!
//! A [`Relay`] decides and its caller acts: each action it names is
//! performed, and the outcome is handed back as the next event. Times are
//! nanoseconds on a monotonic clock.
use vstd::prelude::*;
use vstd::string::*;

use crate::dispatch::{done_view, Disposition, DispositionView};
use crate::responses::{
    new_observer, push_revealed, Observation, ObservationView, ObserverView, StreamObserver,
    SummaryView,
};
use crate::tables::{text_view, views};
use crate::transitions::{CompletedResponse, ResponseView, Settlement};

verus! {

/// What a relay is waiting for.
#[derive(Debug)]
pub enum RelayPhase {
    /// The next chunk, the client's going, or a deadline.
    Waiting,
    /// A response id to be attached.
    Attaching { response_id: String },
    /// The reservation to be settled.
    Settling,
    /// A chunk to be handed to the client.
    Forwarding,
    /// Upstream to be told to stop.
    Cancelling { response_id: String },
    /// An ambiguous failure to be recorded.
    RecordingFailure,
    /// The reservation to be held.
    Holding,
    Done,
}

pub enum RelayPhaseView {
    Waiting,
    Attaching { response_id: Seq<char> },
    Settling,
    Forwarding,
    Cancelling { response_id: Seq<char> },
    RecordingFailure,
    Holding,
    Done,
}

impl View for RelayPhase {
    type V = RelayPhaseView;

    open spec fn view(&self) -> RelayPhaseView {
        match *self {
            RelayPhase::Waiting => RelayPhaseView::Waiting,
            RelayPhase::Attaching { response_id } => RelayPhaseView::Attaching {
                response_id: response_id@,
            },
            RelayPhase::Settling => RelayPhaseView::Settling,
            RelayPhase::Forwarding => RelayPhaseView::Forwarding,
            RelayPhase::Cancelling { response_id } => RelayPhaseView::Cancelling {
                response_id: response_id@,
            },
            RelayPhase::RecordingFailure => RelayPhaseView::RecordingFailure,
            RelayPhase::Holding => RelayPhaseView::Holding,
            RelayPhase::Done => RelayPhaseView::Done,
        }
    }
}

/// A response being relayed.
#[derive(Debug)]
pub struct Relay {
    observer: StreamObserver,
    /// What the current chunk revealed, and how much of it is dealt with.
    pending: Vec<Observation>,
    handled: usize,
    /// Whether the client is still there.
    downstream: bool,
    /// When to give up on learning the id, once the client is gone.
    deadline: Option<u64>,
    id_wait: u64,
    response_id: Option<String>,
    settled: Option<Settlement>,
    phase: RelayPhase,
}

pub struct RelayView {
    pub observer: ObserverView,
    /// What the current chunk revealed and is still to be dealt with.
    pub pending: Seq<ObservationView>,
    pub downstream: bool,
    pub deadline: Option<u64>,
    pub id_wait: u64,
    pub response_id: Option<Seq<char>>,
    pub settled: Option<Settlement>,
    pub phase: RelayPhaseView,
}

impl View for Relay {
    type V = RelayView;

    closed spec fn view(&self) -> RelayView {
        RelayView {
            observer: self.observer@,
            pending: views(self.pending@).skip(self.handled as int),
            downstream: self.downstream,
            deadline: self.deadline,
            id_wait: self.id_wait,
            response_id: text_view(self.response_id),
            settled: self.settled,
            phase: self.phase@,
        }
    }
}

/// What happened, or what became of an action.
#[derive(Debug)]
pub enum RelayEvent {
    /// Upstream sent a chunk.
    Chunk(Vec<u8>),
    /// Upstream ended the stream, cleanly or not.
    Ended,
    /// The client is gone.
    ClientGone,
    /// The deadline was waited for.
    DeadlinePassed,
    /// The id was attached, or why it was not.
    Attached(Result<(), String>),
    /// The reservation was settled, or why it was not.
    Settled(Result<Settlement, String>),
    /// Whether the chunk reached the client.
    Forwarded { delivered: bool },
    /// Upstream was told to stop. Whether it heard does not matter.
    Cancelled,
    FailureRecorded,
    /// The reservation was held, or why it was not.
    Held(Result<(), String>),
}

pub enum RelayEventView {
    Chunk(Seq<u8>),
    Ended,
    ClientGone,
    DeadlinePassed,
    Attached(Result<(), Seq<char>>),
    Settled(Result<Settlement, Seq<char>>),
    Forwarded { delivered: bool },
    Cancelled,
    FailureRecorded,
    Held(Result<(), Seq<char>>),
}

pub open spec fn settle_view(result: Result<Settlement, String>) -> Result<Settlement, Seq<char>> {
    match result {
        Ok(settlement) => Ok(settlement),
        Err(detail) => Err(detail@),
    }
}

impl View for RelayEvent {
    type V = RelayEventView;

    open spec fn view(&self) -> RelayEventView {
        match *self {
            RelayEvent::Chunk(bytes) => RelayEventView::Chunk(bytes@),
            RelayEvent::Ended => RelayEventView::Ended,
            RelayEvent::ClientGone => RelayEventView::ClientGone,
            RelayEvent::DeadlinePassed => RelayEventView::DeadlinePassed,
            RelayEvent::Attached(result) => RelayEventView::Attached(done_view(result)),
            RelayEvent::Settled(result) => RelayEventView::Settled(settle_view(result)),
            RelayEvent::Forwarded { delivered } => RelayEventView::Forwarded { delivered },
            RelayEvent::Cancelled => RelayEventView::Cancelled,
            RelayEvent::FailureRecorded => RelayEventView::FailureRecorded,
            RelayEvent::Held(result) => RelayEventView::Held(done_view(result)),
        }
    }
}

/// What is to be done next.
#[derive(Debug)]
pub enum RelayAction {
    /// Wait for a chunk, for the client to go, and no longer than the
    /// deadline, where there is one.
    Wait { until: Option<u64> },
    /// Attach the id to the reservation.
    Attach { response_id: String },
    /// Record the completion with the breaker, and settle the reservation.
    Settle(CompletedResponse),
    /// Hand the chunk to the client, unchanged.
    Forward,
    /// Tell upstream to stop. What it consumed is settled by retrieval.
    Cancel { response_id: String },
    /// Record an ambiguous failure with the breaker.
    RecordFailure,
    /// Mark the reservation as sent with an unknown id.
    Hold,
    Finish(Disposition),
}

pub enum RelayActionView {
    Wait { until: Option<u64> },
    Attach { response_id: Seq<char> },
    Settle(ResponseView),
    Forward,
    Cancel { response_id: Seq<char> },
    RecordFailure,
    Hold,
    Finish(DispositionView),
}

impl View for RelayAction {
    type V = RelayActionView;

    open spec fn view(&self) -> RelayActionView {
        match *self {
            RelayAction::Wait { until } => RelayActionView::Wait { until },
            RelayAction::Attach { response_id } => RelayActionView::Attach {
                response_id: response_id@,
            },
            RelayAction::Settle(completed) => RelayActionView::Settle(completed@),
            RelayAction::Forward => RelayActionView::Forward,
            RelayAction::Cancel { response_id } => RelayActionView::Cancel {
                response_id: response_id@,
            },
            RelayAction::RecordFailure => RelayActionView::RecordFailure,
            RelayAction::Hold => RelayActionView::Hold,
            RelayAction::Finish(disposition) => RelayActionView::Finish(disposition@),
        }
    }
}

/// What settlement is told of a finished response.
pub open spec fn completed_of(summary: SummaryView) -> ResponseView {
    ResponseView {
        usage: summary.usage,
        model: match summary.model {
            Some(model) => model,
            None => Seq::empty(),
        },
        service_tier: match summary.service_tier {
            Some(tier) => tier,
            None => Seq::empty(),
        },
    }
}

/// The wait of a relay: for the id, once the client is gone and nothing is
/// settled.
pub open spec fn waits_for_id(s: RelayView) -> bool {
    !s.downstream && s.settled is None
}

/// Back at the top: a gone client's response is cancelled where its id is
/// known, and held where the wait for it is over.
pub open spec fn at_top(s: RelayView, now: u64) -> (RelayView, RelayActionView) {
    if !waits_for_id(s) {
        (
            RelayView { phase: RelayPhaseView::Waiting, ..s },
            RelayActionView::Wait { until: None },
        )
    } else {
        match s.response_id {
            Some(response_id) => (
                RelayView { phase: RelayPhaseView::Cancelling { response_id }, ..s },
                RelayActionView::Cancel { response_id },
            ),
            None => if s.deadline matches Some(d) && now >= d {
                (RelayView { phase: RelayPhaseView::Holding, ..s }, RelayActionView::Hold)
            } else {
                (
                    RelayView { phase: RelayPhaseView::Waiting, ..s },
                    RelayActionView::Wait { until: s.deadline },
                )
            },
        }
    }
}

/// Deals with what a chunk revealed, one observation at a time; then the
/// chunk goes to the client, if it is still there.
pub open spec fn next_pending(s: RelayView, now: u64) -> (RelayView, RelayActionView)
    decreases s.pending.len(),
{
    if s.pending.len() == 0 {
        if s.downstream {
            (RelayView { phase: RelayPhaseView::Forwarding, ..s }, RelayActionView::Forward)
        } else {
            at_top(s, now)
        }
    } else {
        let rest = RelayView { pending: s.pending.drop_first(), ..s };
        match s.pending[0] {
            ObservationView::ResponseId(response_id) => (
                RelayView { phase: RelayPhaseView::Attaching { response_id }, ..rest },
                RelayActionView::Attach { response_id },
            ),
            ObservationView::Terminal(summary) => if s.settled is None {
                (
                    RelayView { phase: RelayPhaseView::Settling, ..rest },
                    RelayActionView::Settle(completed_of(summary)),
                )
            } else {
                next_pending(rest, now)
            },
            ObservationView::StreamError { .. } => next_pending(rest, now),
        }
    }
}

/// The relay once the client is gone: the deadline is set, where it is not
/// set already.
pub open spec fn without_client(s: RelayView, now: u64) -> RelayView {
    RelayView {
        downstream: false,
        deadline: match s.deadline {
            Some(d) => Some(d),
            None => Some((now + s.id_wait) as u64),
        },
        ..s
    }
}

pub open spec fn finished(s: RelayView, disposition: DispositionView) -> (
    RelayView,
    RelayActionView,
) {
    (RelayView { phase: RelayPhaseView::Done, ..s }, RelayActionView::Finish(disposition))
}

/// The relay's next state and action; `None` where the event does not answer
/// what it is waiting for.
pub open spec fn relay_step(s: RelayView, event: RelayEventView, now: u64) -> Option<
    (RelayView, RelayActionView),
> {
    match (s.phase, event) {
        (RelayPhaseView::Waiting, RelayEventView::Chunk(bytes)) => {
            let (observations, observer) = push_revealed(s.observer, bytes);
            Some(next_pending(RelayView { observer, pending: observations, ..s }, now))
        },
        (RelayPhaseView::Waiting, RelayEventView::ClientGone) => Some(
            at_top(without_client(s, now), now),
        ),
        (RelayPhaseView::Waiting, RelayEventView::DeadlinePassed) => Some(at_top(s, now)),
        (RelayPhaseView::Waiting, RelayEventView::Ended) => Some(
            match s.settled {
                Some(settlement) => finished(s, DispositionView::Settled(settlement)),
                None => (
                    RelayView { phase: RelayPhaseView::RecordingFailure, ..s },
                    RelayActionView::RecordFailure,
                ),
            },
        ),
        (RelayPhaseView::Attaching { response_id }, RelayEventView::Attached(result)) => Some(
            match result {
                Ok(_) => next_pending(RelayView { response_id: Some(response_id), ..s }, now),
                Err(detail) => finished(s, DispositionView::LedgerFailed(detail)),
            },
        ),
        (RelayPhaseView::Settling, RelayEventView::Settled(result)) => Some(
            match result {
                Ok(settlement) => next_pending(RelayView { settled: Some(settlement), ..s }, now),
                Err(detail) => finished(s, DispositionView::LedgerFailed(detail)),
            },
        ),
        (RelayPhaseView::Forwarding, RelayEventView::Forwarded { delivered }) => Some(
            if delivered {
                at_top(s, now)
            } else {
                at_top(without_client(s, now), now)
            },
        ),
        (RelayPhaseView::Cancelling { response_id }, RelayEventView::Cancelled) => Some(
            finished(s, DispositionView::AwaitingRetrieval { response_id }),
        ),
        (RelayPhaseView::RecordingFailure, RelayEventView::FailureRecorded) => Some(
            match s.response_id {
                Some(response_id) => finished(
                    s,
                    DispositionView::AwaitingRetrieval { response_id },
                ),
                None => (
                    RelayView { phase: RelayPhaseView::Holding, ..s },
                    RelayActionView::Hold,
                ),
            },
        ),
        (RelayPhaseView::Holding, RelayEventView::Held(result)) => Some(
            match result {
                Ok(_) => finished(s, DispositionView::HeldAsUnknown),
                Err(detail) => finished(s, DispositionView::LedgerFailed(detail)),
            },
        ),
        _ => None,
    }
}

/// A relay that begins: the head was delivered, or the client is gone.
pub open spec fn new_relay(delivered: bool, id_wait: u64, now: u64) -> RelayView {
    RelayView {
        observer: new_observer(),
        pending: Seq::empty(),
        downstream: delivered,
        deadline: if delivered {
            None
        } else {
            Some((now + id_wait) as u64)
        },
        id_wait,
        response_id: None,
        settled: None,
        phase: RelayPhaseView::Waiting,
    }
}

impl Relay {
    /// A relay that begins, and its first action.
    pub fn new(delivered: bool, id_wait: u64, now: u64) -> (first: (Relay, RelayAction))
        requires
            now + id_wait <= u64::MAX,
        ensures
            (first.0@, first.1@) == at_top(new_relay(delivered, id_wait, now), now),
            first.0.ok(),
    {
        let mut relay = Relay {
            observer: StreamObserver::new(),
            pending: Vec::new(),
            handled: 0,
            downstream: delivered,
            deadline: if delivered {
                None
            } else {
                Some(now + id_wait)
            },
            id_wait,
            response_id: None,
            settled: None,
            phase: RelayPhase::Waiting,
        };
        assert(relay@.pending =~= Seq::empty());
        let action = relay.top(now);
        (relay, action)
    }

    pub closed spec fn ok(&self) -> bool {
        self.handled <= self.pending@.len()
    }

    /// Back at the top.
    fn top(&mut self, now: u64) -> (action: RelayAction)
        requires
            old(self).ok(),
        ensures
            final(self).ok(),
            (final(self)@, action@) == at_top(old(self)@, now),
    {
        if self.downstream || self.settled.is_some() {
            self.phase = RelayPhase::Waiting;
            return RelayAction::Wait { until: None };
        }
        let known: Option<String> = match &self.response_id {
            Some(id) => Some(id.clone()),
            None => None,
        };
        match known {
            Some(response_id) => {
                // Stop generation. What it consumed is settled by retrieval.
                self.phase = RelayPhase::Cancelling { response_id: response_id.clone() };
                RelayAction::Cancel { response_id }
            },
            None => {
                let over = match self.deadline {
                    Some(d) => now >= d,
                    None => false,
                };
                if over {
                    self.phase = RelayPhase::Holding;
                    RelayAction::Hold
                } else {
                    self.phase = RelayPhase::Waiting;
                    RelayAction::Wait { until: self.deadline }
                }
            },
        }
    }

    /// Deals with the next observation of the current chunk.
    fn next(&mut self, now: u64) -> (action: RelayAction)
        requires
            old(self).ok(),
        ensures
            final(self).ok(),
            (final(self)@, action@) == next_pending(old(self)@, now),
    {
        while self.handled < self.pending.len()
            invariant
                self.ok(),
                next_pending(self@, now) == next_pending(old(self)@, now),
            decreases self.pending.len() - self.handled,
        {
            let at = self.handled;
            let ghost before = self@;
            let ghost all = views(self.pending@);
            proof {
                assert(before.pending[0] == self.pending@[at as int]@);
                assert(before.pending.drop_first() =~= all.skip(at + 1));
            }
            self.handled = at + 1;
            match &self.pending[at] {
                Observation::ResponseId(id) => {
                    let response_id = id.clone();
                    self.phase = RelayPhase::Attaching { response_id: response_id.clone() };
                    return RelayAction::Attach { response_id };
                },
                Observation::Terminal(summary) => {
                    if self.settled.is_none() {
                        let completed = CompletedResponse {
                            usage: summary.usage,
                            model: text_or_empty(&summary.model),
                            service_tier: text_or_empty(&summary.service_tier),
                        };
                        self.phase = RelayPhase::Settling;
                        return RelayAction::Settle(completed);
                    }
                },
                Observation::StreamError { .. } => {},
            }
        }
        assert(self@.pending.len() == 0);
        if self.downstream {
            self.phase = RelayPhase::Forwarding;
            RelayAction::Forward
        } else {
            self.top(now)
        }
    }

    /// Takes what happened and says what is to be done next; `None`, with
    /// nothing changed, where the event does not answer what the relay is
    /// waiting for.
    pub fn step(&mut self, event: RelayEvent, now: u64) -> (action: Option<RelayAction>)
        requires
            old(self).ok(),
            now + old(self)@.id_wait <= u64::MAX,
        ensures
            final(self).ok(),
            match relay_step(old(self)@, event@, now) {
                Some((next, told)) => final(self)@ == next && (action matches Some(a) && a@ == told),
                None => final(self)@ == old(self)@ && action is None,
            },
    {
        let ghost start = self@;
        let phase = self.phase.copy();
        match (phase, event) {
            (RelayPhase::Waiting, RelayEvent::Chunk(bytes)) => {
                let observations = self.observer.push(bytes.as_slice());
                let ghost told = views(observations@);
                self.pending = observations;
                self.handled = 0;
                assert(views(self.pending@).skip(0) =~= told);
                Some(self.next(now))
            },
            (RelayPhase::Waiting, RelayEvent::ClientGone) => {
                self.lose_client(now);
                Some(self.top(now))
            },
            (RelayPhase::Waiting, RelayEvent::DeadlinePassed) => Some(self.top(now)),
            (RelayPhase::Waiting, RelayEvent::Ended) => {
                match self.settled {
                    Some(settlement) => {
                        self.phase = RelayPhase::Done;
                        Some(RelayAction::Finish(Disposition::Settled(settlement)))
                    },
                    None => {
                        // Ended before its terminal event.
                        self.phase = RelayPhase::RecordingFailure;
                        Some(RelayAction::RecordFailure)
                    },
                }
            },
            (RelayPhase::Attaching { response_id }, RelayEvent::Attached(result)) => match result {
                Ok(_) => {
                    self.response_id = Some(response_id);
                    Some(self.next(now))
                },
                Err(detail) => Some(self.fail(detail)),
            },
            (RelayPhase::Settling, RelayEvent::Settled(result)) => match result {
                Ok(settlement) => {
                    self.settled = Some(settlement);
                    Some(self.next(now))
                },
                Err(detail) => Some(self.fail(detail)),
            },
            (RelayPhase::Forwarding, RelayEvent::Forwarded { delivered }) => {
                if !delivered {
                    self.lose_client(now);
                }
                Some(self.top(now))
            },
            (RelayPhase::Cancelling { response_id }, RelayEvent::Cancelled) => {
                self.phase = RelayPhase::Done;
                Some(RelayAction::Finish(Disposition::AwaitingRetrieval { response_id }))
            },
            (RelayPhase::RecordingFailure, RelayEvent::FailureRecorded) => {
                let known: Option<String> = match &self.response_id {
                    Some(id) => Some(id.clone()),
                    None => None,
                };
                match known {
                    Some(response_id) => {
                        self.phase = RelayPhase::Done;
                        Some(RelayAction::Finish(Disposition::AwaitingRetrieval { response_id }))
                    },
                    None => {
                        self.phase = RelayPhase::Holding;
                        Some(RelayAction::Hold)
                    },
                }
            },
            (RelayPhase::Holding, RelayEvent::Held(result)) => match result {
                Ok(_) => {
                    self.phase = RelayPhase::Done;
                    Some(RelayAction::Finish(Disposition::HeldAsUnknown))
                },
                Err(detail) => Some(self.fail(detail)),
            },
            _ => None,
        }
    }

    /// The ledger failed.
    fn fail(&mut self, detail: String) -> (action: RelayAction)
        requires
            old(self).ok(),
        ensures
            final(self).ok(),
            (final(self)@, action@) == finished(
                old(self)@,
                DispositionView::LedgerFailed(detail@),
            ),
    {
        self.phase = RelayPhase::Done;
        RelayAction::Finish(Disposition::LedgerFailed(detail))
    }

    /// The client is gone.
    fn lose_client(&mut self, now: u64)
        requires
            old(self).ok(),
            now + old(self)@.id_wait <= u64::MAX,
        ensures
            final(self).ok(),
            final(self)@ == without_client(old(self)@, now),
    {
        self.downstream = false;
        if self.deadline.is_none() {
            self.deadline = Some(now + self.id_wait);
        }
    }
}

impl RelayPhase {
    fn copy(&self) -> (out: RelayPhase)
        ensures
            out@ == self@,
    {
        match self {
            RelayPhase::Waiting => RelayPhase::Waiting,
            RelayPhase::Attaching { response_id } => RelayPhase::Attaching {
                response_id: response_id.clone(),
            },
            RelayPhase::Settling => RelayPhase::Settling,
            RelayPhase::Forwarding => RelayPhase::Forwarding,
            RelayPhase::Cancelling { response_id } => RelayPhase::Cancelling {
                response_id: response_id.clone(),
            },
            RelayPhase::RecordingFailure => RelayPhase::RecordingFailure,
            RelayPhase::Holding => RelayPhase::Holding,
            RelayPhase::Done => RelayPhase::Done,
        }
    }
}

/// A text, or the empty one.
fn text_or_empty(text: &Option<String>) -> (out: String)
    ensures
        out@ == match *text {
            Some(s) => s@,
            None => Seq::empty(),
        },
{
    match text {
        Some(s) => s.clone(),
        None => {
            let none = String::new();
            assert(none@ =~= Seq::empty());
            none
        },
    }
}

// ---------------------------------------------------------------------------
// Laws.

/// What holds of a relay at every step: once settled it is never held,
/// cancelled or counted as failed, and it is cancelled only by the id that is
/// known.
pub open spec fn consistent(s: RelayView) -> bool {
    match s.phase {
        RelayPhaseView::Holding => s.settled is None && s.response_id is None,
        RelayPhaseView::RecordingFailure => s.settled is None,
        RelayPhaseView::Settling => s.settled is None,
        RelayPhaseView::Cancelling { response_id } => s.settled is None && s.response_id == Some(
            response_id,
        ),
        _ => true,
    }
}

proof fn lemma_pending_is_consistent(s: RelayView, now: u64)
    ensures
        ({
            let (next, action) = next_pending(s, now);
            &&& consistent(next)
            &&& next.settled == s.settled
            &&& next.response_id == s.response_id
            &&& next.deadline == s.deadline
            &&& next.downstream == s.downstream
            &&& !(action is Finish)
            &&& action is Settle ==> s.settled is None
        }),
    decreases s.pending.len(),
{
    if s.pending.len() > 0 {
        match s.pending[0] {
            ObservationView::ResponseId(_) => {},
            _ => {
                lemma_pending_is_consistent(
                    RelayView { pending: s.pending.drop_first(), ..s },
                    now,
                );
            },
        }
    }
}

/// Law: what a relay has settled stays settled, and a settled reservation is
/// never settled again, held, cancelled or counted as a failure.
pub proof fn a_settled_response_is_never_held(s: RelayView, event: RelayEventView, now: u64)
    requires
        consistent(s),
    ensures
        relay_step(s, event, now) matches Some((next, action)) ==> {
            &&& consistent(next)
            &&& s.settled is Some ==> next.settled == s.settled
            &&& s.settled is Some ==> !(action is Settle || action is Hold || action is Cancel
                || action is RecordFailure)
        },
{
    match (s.phase, event) {
        (RelayPhaseView::Waiting, RelayEventView::Chunk(bytes)) => {
            let (observations, observer) = push_revealed(s.observer, bytes);
            lemma_pending_is_consistent(
                RelayView { observer, pending: observations, ..s },
                now,
            );
            lemma_settled_pending(RelayView { observer, pending: observations, ..s }, now);
        },
        (RelayPhaseView::Attaching { response_id }, RelayEventView::Attached(Ok(_))) => {
            lemma_pending_is_consistent(
                RelayView { response_id: Some(response_id), ..s },
                now,
            );
            lemma_settled_pending(RelayView { response_id: Some(response_id), ..s }, now);
        },
        (RelayPhaseView::Settling, RelayEventView::Settled(Ok(settlement))) => {
            lemma_pending_is_consistent(RelayView { settled: Some(settlement), ..s }, now);
        },
        _ => {},
    }
}

proof fn lemma_settled_pending(s: RelayView, now: u64)
    ensures
        s.settled is Some ==> ({
            let action = next_pending(s, now).1;
            !(action is Settle || action is Hold || action is Cancel || action is RecordFailure)
        }),
    decreases s.pending.len(),
{
    if s.pending.len() > 0 {
        match s.pending[0] {
            ObservationView::ResponseId(_) => {},
            _ => {
                lemma_settled_pending(RelayView { pending: s.pending.drop_first(), ..s }, now);
            },
        }
    }
}

/// Law: how a relay ends. It ends settled exactly with the settlement that
/// was made, waits for retrieval only by a known id, and is held only where
/// no id is known.
pub proof fn a_relay_ends_as_it_stands(s: RelayView, event: RelayEventView, now: u64)
    requires
        consistent(s),
    ensures
        relay_step(s, event, now) matches Some((_, RelayActionView::Finish(disposition)))
            ==> match disposition {
            DispositionView::Settled(settlement) => s.settled == Some(settlement),
            DispositionView::AwaitingRetrieval { response_id } => s.settled is None
                && s.response_id == Some(response_id),
            DispositionView::HeldAsUnknown => s.settled is None && s.response_id is None,
            DispositionView::LedgerFailed(_) => true,
            _ => false,
        },
{
    match (s.phase, event) {
        (RelayPhaseView::Waiting, RelayEventView::Chunk(bytes)) => {
            let (observations, observer) = push_revealed(s.observer, bytes);
            lemma_pending_is_consistent(
                RelayView { observer, pending: observations, ..s },
                now,
            );
        },
        (RelayPhaseView::Attaching { response_id }, RelayEventView::Attached(Ok(_))) => {
            lemma_pending_is_consistent(
                RelayView { response_id: Some(response_id), ..s },
                now,
            );
        },
        (RelayPhaseView::Settling, RelayEventView::Settled(Ok(settlement))) => {
            lemma_pending_is_consistent(RelayView { settled: Some(settlement), ..s }, now);
        },
        _ => {},
    }
}

/// Law: once set, the deadline for learning the id does not move, and a
/// client that is gone stays gone.
pub proof fn the_wait_for_an_id_is_bounded(s: RelayView, event: RelayEventView, now: u64)
    ensures
        relay_step(s, event, now) matches Some((next, _)) ==> {
            &&& s.deadline is Some ==> next.deadline == s.deadline
            &&& !s.downstream ==> !next.downstream
        },
{
    match (s.phase, event) {
        (RelayPhaseView::Waiting, RelayEventView::Chunk(bytes)) => {
            let (observations, observer) = push_revealed(s.observer, bytes);
            lemma_pending_is_consistent(
                RelayView { observer, pending: observations, ..s },
                now,
            );
        },
        (RelayPhaseView::Attaching { response_id }, RelayEventView::Attached(Ok(_))) => {
            lemma_pending_is_consistent(
                RelayView { response_id: Some(response_id), ..s },
                now,
            );
        },
        (RelayPhaseView::Settling, RelayEventView::Settled(Ok(settlement))) => {
            lemma_pending_is_consistent(RelayView { settled: Some(settlement), ..s }, now);
        },
        _ => {},
    }
}

} // verus!
