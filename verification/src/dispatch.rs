//! Sending a reserved request upstream and supervising it to settlement.
//!
//! The order of operations is the safety argument.
//!
//! 1. `DISPATCHING` is made durable before the upstream request is sent.
//! 2. A transport error after that point is an unknown outcome, because
//!    upstream may have received the whole request. The reservation is held.
//! 3. A synchronous refusal whose status proves processing never started
//!    releases the reservation; any other refusal holds it.
//! 4. A status that shows a configuration or safety failure closes the
//!    provider durably before anything else is done about it.
//! 5. The response id is attached as soon as it is seen, and the reservation
//!    is settled from the terminal event's usage.
//! 6. If the client disconnects before the id is known, the supervisor keeps
//!    reading upstream for a bounded time to learn it. A background response
//!    keeps generating after its connection closes, so without the id there
//!    would be nothing to cancel and nothing to retrieve.
//!
//! Nothing is sent while the provider's rate limit has not reset, or while
//! it is cooling down after consecutive ambiguous failures; the reservation
//! is released unsent instead.
//!
//! A [`Supervisor`] decides and its caller acts: each action it names is
//! performed, and the outcome is handed back as the next event.
use vstd::prelude::*;
use vstd::string::*;

use crate::failure_breaker::BreakerPolicy;
use crate::ledger::ReservationId;
use crate::status_policy::{
    closes_the_provider, decide, decision_for, is_success, ProviderAction, ReservationAction,
    StatusDecision,
};
use crate::transitions::Settlement;

verus! {

/// The right to send exactly one request whose liability has been reserved.
/// Not `Clone`: it is consumed when dispatch begins.
#[derive(Debug)]
pub struct DispatchPermit {
    reservation: ReservationId,
    body: Vec<u8>,
    accounting_rev: i64,
}

pub struct PermitView {
    pub reservation: ReservationId,
    pub body: Seq<u8>,
    pub accounting_rev: i64,
}

impl View for DispatchPermit {
    type V = PermitView;

    closed spec fn view(&self) -> PermitView {
        PermitView {
            reservation: self.reservation,
            body: self.body@,
            accounting_rev: self.accounting_rev,
        }
    }
}

impl DispatchPermit {
    /// Binds a reservation to the exact canonical body its liability was
    /// computed for. Only admission, which holds the reservation, makes one.
    pub(crate) fn new(reservation: ReservationId, body: Vec<u8>, accounting_rev: i64) -> (permit:
        DispatchPermit)
        ensures
            permit@ == (PermitView { reservation, body: body@, accounting_rev }),
    {
        DispatchPermit { reservation, body, accounting_rev }
    }

    pub fn reservation(&self) -> (id: ReservationId)
        ensures
            id == self@.reservation,
    {
        self.reservation
    }

    /// The body that may be sent, and the accounting revision it is settled
    /// under. The permit is consumed.
    pub fn into_parts(self) -> (parts: (ReservationId, Vec<u8>, i64))
        ensures
            parts.0 == self@.reservation,
            parts.1@ == self@.body,
            parts.2 == self@.accounting_rev,
    {
        (self.reservation, self.body, self.accounting_rev)
    }
}

#[derive(Debug, Clone, Copy, PartialEq, Eq, Structural)]
pub struct DispatchPolicy {
    /// How long to keep reading upstream for the response id after the client
    /// has disconnected, in nanoseconds.
    pub id_wait_after_disconnect: u64,
    pub max_error_body_bytes: usize,
    pub channel_capacity: usize,
    pub breaker: BreakerPolicy,
}

/// What the request handler receives, where it is not a stream to relay.
#[derive(Debug, PartialEq, Eq)]
pub enum Head {
    /// Upstream refused. The decision says what the router should do next.
    Refused { status: u16, decision: StatusDecision, body: Vec<u8> },
    /// Not sent: the provider's rate limit has not reset. The reservation was
    /// released.
    RateLimited { retry_after: u64 },
    /// Not sent: the provider failed ambiguously several times in a row and
    /// is cooling down. The reservation was released.
    CoolingDown { retry_after: u64 },
    /// Nothing was sent; the reservation was released.
    NotSent(String),
    /// Sent, but the outcome is unknown; the reservation is held.
    OutcomeUnknown(String),
}

pub enum HeadView {
    Refused { status: u16, decision: StatusDecision, body: Seq<u8> },
    RateLimited { retry_after: u64 },
    CoolingDown { retry_after: u64 },
    NotSent(Seq<char>),
    OutcomeUnknown(Seq<char>),
}

impl View for Head {
    type V = HeadView;

    open spec fn view(&self) -> HeadView {
        match *self {
            Head::Refused { status, decision, body } => HeadView::Refused {
                status,
                decision,
                body: body@,
            },
            Head::RateLimited { retry_after } => HeadView::RateLimited { retry_after },
            Head::CoolingDown { retry_after } => HeadView::CoolingDown { retry_after },
            Head::NotSent(detail) => HeadView::NotSent(detail@),
            Head::OutcomeUnknown(detail) => HeadView::OutcomeUnknown(detail@),
        }
    }
}

/// Where the reservation ended up when the supervisor finished.
#[derive(Debug, PartialEq, Eq)]
pub enum Disposition {
    Settled(Settlement),
    /// The id is known and recorded; retrieval settles it.
    AwaitingRetrieval { response_id: String },
    /// Sent with no id to recover; written off at its deadline.
    HeldAsUnknown,
    ReleasedUnsent,
    /// Sent and refused before processing started.
    ReleasedRejected,
    LedgerFailed(String),
}

pub enum DispositionView {
    Settled(Settlement),
    AwaitingRetrieval { response_id: Seq<char> },
    HeldAsUnknown,
    ReleasedUnsent,
    ReleasedRejected,
    LedgerFailed(Seq<char>),
}

impl View for Disposition {
    type V = DispositionView;

    open spec fn view(&self) -> DispositionView {
        match *self {
            Disposition::Settled(settlement) => DispositionView::Settled(settlement),
            Disposition::AwaitingRetrieval { response_id } => DispositionView::AwaitingRetrieval {
                response_id: response_id@,
            },
            Disposition::HeldAsUnknown => DispositionView::HeldAsUnknown,
            Disposition::ReleasedUnsent => DispositionView::ReleasedUnsent,
            Disposition::ReleasedRejected => DispositionView::ReleasedRejected,
            Disposition::LedgerFailed(detail) => DispositionView::LedgerFailed(detail@),
        }
    }
}

// ---------------------------------------------------------------------------
// The supervisor.

/// What a supervisor is waiting for.
#[derive(Debug)]
pub enum Supervisor {
    /// To learn whether the provider is held back.
    Starting,
    /// The reservation is being released unsent; then the head is delivered.
    Releasing { head: Head },
    /// `DISPATCHING` is being made durable.
    Beginning,
    /// The request is on its way.
    Sending,
    /// A transport error is being recorded; then the reservation is held.
    Recording { detail: String },
    /// The response's limits are being noted, where they say something.
    Noting { status: u16 },
    /// The provider is being closed.
    Closing { status: u16 },
    /// A refusal that holds the reservation is being recorded.
    RecordingRefusal { status: u16 },
    /// The refusal's body is being read.
    Reading { status: u16 },
    /// The reservation is being released as rejected.
    ReleasingRejected { status: u16, body: Vec<u8> },
    /// The reservation is being held; then the head is delivered.
    Holding { head: Head },
    /// The head is being delivered; then this is the end.
    Delivering { disposition: Disposition },
    /// The response is being relayed.
    Relaying,
    Done,
}

pub enum SupervisorView {
    Starting,
    Releasing { head: HeadView },
    Beginning,
    Sending,
    Recording { detail: Seq<char> },
    Noting { status: u16 },
    Closing { status: u16 },
    RecordingRefusal { status: u16 },
    Reading { status: u16 },
    ReleasingRejected { status: u16, body: Seq<u8> },
    Holding { head: HeadView },
    Delivering { disposition: DispositionView },
    Relaying,
    Done,
}

impl View for Supervisor {
    type V = SupervisorView;

    open spec fn view(&self) -> SupervisorView {
        match *self {
            Supervisor::Starting => SupervisorView::Starting,
            Supervisor::Releasing { head } => SupervisorView::Releasing { head: head@ },
            Supervisor::Beginning => SupervisorView::Beginning,
            Supervisor::Sending => SupervisorView::Sending,
            Supervisor::Recording { detail } => SupervisorView::Recording { detail: detail@ },
            Supervisor::Noting { status } => SupervisorView::Noting { status },
            Supervisor::Closing { status } => SupervisorView::Closing { status },
            Supervisor::RecordingRefusal { status } => SupervisorView::RecordingRefusal { status },
            Supervisor::Reading { status } => SupervisorView::Reading { status },
            Supervisor::ReleasingRejected { status, body } => SupervisorView::ReleasingRejected {
                status,
                body: body@,
            },
            Supervisor::Holding { head } => SupervisorView::Holding { head: head@ },
            Supervisor::Delivering { disposition } => SupervisorView::Delivering {
                disposition: disposition@,
            },
            Supervisor::Relaying => SupervisorView::Relaying,
            Supervisor::Done => SupervisorView::Done,
        }
    }
}

/// What became of an action.
#[derive(Debug)]
pub enum SuperviseEvent {
    /// How long the rate limit and the breaker still hold the provider back.
    HeldBack { rate_limited: Option<u64>, cooling_down: Option<u64> },
    /// A ledger transition was made, or why it was not.
    Ledger(Result<(), String>),
    /// No response came.
    SendFailed { detail: String },
    /// A response with this status came.
    Answered { status: u16 },
    /// What was to be noted is noted.
    Noted,
    /// The body of a refusal, as far as it is kept.
    Body(Vec<u8>),
    /// The head was handed over, or nobody was there to take it.
    Delivered,
    /// The relay ended.
    Relayed(Disposition),
}

pub enum SuperviseEventView {
    HeldBack { rate_limited: Option<u64>, cooling_down: Option<u64> },
    Ledger(Result<(), Seq<char>>),
    SendFailed { detail: Seq<char> },
    Answered { status: u16 },
    Noted,
    Body(Seq<u8>),
    Delivered,
    Relayed(DispositionView),
}

pub open spec fn done_view(result: Result<(), String>) -> Result<(), Seq<char>> {
    match result {
        Ok(()) => Ok(()),
        Err(detail) => Err(detail@),
    }
}

impl View for SuperviseEvent {
    type V = SuperviseEventView;

    open spec fn view(&self) -> SuperviseEventView {
        match *self {
            SuperviseEvent::HeldBack { rate_limited, cooling_down } =>
                SuperviseEventView::HeldBack { rate_limited, cooling_down },
            SuperviseEvent::Ledger(result) => SuperviseEventView::Ledger(done_view(result)),
            SuperviseEvent::SendFailed { detail } => SuperviseEventView::SendFailed {
                detail: detail@,
            },
            SuperviseEvent::Answered { status } => SuperviseEventView::Answered { status },
            SuperviseEvent::Noted => SuperviseEventView::Noted,
            SuperviseEvent::Body(bytes) => SuperviseEventView::Body(bytes@),
            SuperviseEvent::Delivered => SuperviseEventView::Delivered,
            SuperviseEvent::Relayed(disposition) => SuperviseEventView::Relayed(disposition@),
        }
    }
}

/// What is to be done next.
#[derive(Debug)]
pub enum SuperviseAction {
    /// Release the reservation: nothing was sent.
    ReleaseUnsent,
    /// Make `DISPATCHING` durable, where the body may be sent.
    BeginDispatch,
    /// Send the request.
    Send,
    /// Record an ambiguous failure with the breaker.
    RecordFailure,
    /// Close the rate limit from the headers of a 429.
    NoteRateLimited,
    /// Note the limits a successful response reports.
    NoteHeaders,
    /// Nothing to note.
    NoteNothing,
    /// Close the provider, durably.
    CloseProvider { status: u16 },
    /// Read the body of the refusal, up to the cap.
    ReadBody,
    /// Release the reservation: upstream refused it before processing.
    ReleaseRejected,
    /// Mark the reservation as sent with an unknown id.
    Hold,
    /// Hand the head to the request handler.
    Deliver(Head),
    /// Relay the response.
    Relay,
    Finish(Disposition),
}

pub enum SuperviseActionView {
    ReleaseUnsent,
    BeginDispatch,
    Send,
    RecordFailure,
    NoteRateLimited,
    NoteHeaders,
    NoteNothing,
    CloseProvider { status: u16 },
    ReadBody,
    ReleaseRejected,
    Hold,
    Deliver(HeadView),
    Relay,
    Finish(DispositionView),
}

impl View for SuperviseAction {
    type V = SuperviseActionView;

    open spec fn view(&self) -> SuperviseActionView {
        match *self {
            SuperviseAction::ReleaseUnsent => SuperviseActionView::ReleaseUnsent,
            SuperviseAction::BeginDispatch => SuperviseActionView::BeginDispatch,
            SuperviseAction::Send => SuperviseActionView::Send,
            SuperviseAction::RecordFailure => SuperviseActionView::RecordFailure,
            SuperviseAction::NoteRateLimited => SuperviseActionView::NoteRateLimited,
            SuperviseAction::NoteHeaders => SuperviseActionView::NoteHeaders,
            SuperviseAction::NoteNothing => SuperviseActionView::NoteNothing,
            SuperviseAction::CloseProvider { status } => SuperviseActionView::CloseProvider {
                status,
            },
            SuperviseAction::ReadBody => SuperviseActionView::ReadBody,
            SuperviseAction::ReleaseRejected => SuperviseActionView::ReleaseRejected,
            SuperviseAction::Hold => SuperviseActionView::Hold,
            SuperviseAction::Deliver(head) => SuperviseActionView::Deliver(head@),
            SuperviseAction::Relay => SuperviseActionView::Relay,
            SuperviseAction::Finish(disposition) => SuperviseActionView::Finish(disposition@),
        }
    }
}

/// The end of a ledger transition: what it was for, or its failure.
pub open spec fn ended_as(result: Result<(), Seq<char>>, disposition: DispositionView) -> DispositionView {
    match result {
        Ok(()) => disposition,
        Err(detail) => DispositionView::LedgerFailed(detail),
    }
}

/// What becomes of a refused or accepted response once its limits are noted,
/// or the provider is closed.
pub open spec fn after_noting(status: u16) -> (SupervisorView, SuperviseActionView) {
    match decision_for(status).reservation {
        ReservationAction::Settle => (SupervisorView::Relaying, SuperviseActionView::Relay),
        ReservationAction::ReleaseRejected => (
            SupervisorView::Reading { status },
            SuperviseActionView::ReadBody,
        ),
        ReservationAction::HoldAsUnknown => (
            SupervisorView::RecordingRefusal { status },
            SuperviseActionView::RecordFailure,
        ),
    }
}

/// What is noted of a response's headers.
pub open spec fn noting_for(status: u16) -> SuperviseActionView {
    if decision_for(status).provider is BackOff {
        SuperviseActionView::NoteRateLimited
    } else if is_success(status) {
        SuperviseActionView::NoteHeaders
    } else {
        SuperviseActionView::NoteNothing
    }
}

/// What a response's status leads to. A provider that has to be remediated is
/// closed before anything else.
pub open spec fn on_answer(status: u16) -> (SupervisorView, SuperviseActionView) {
    if decision_for(status).provider is CloseUntilRemediated {
        (SupervisorView::Closing { status }, SuperviseActionView::CloseProvider { status })
    } else {
        (SupervisorView::Noting { status }, noting_for(status))
    }
}

/// The supervisor's next state and action; `None` where the event does not
/// answer what it is waiting for.
pub open spec fn supervise_step(state: SupervisorView, event: SuperviseEventView) -> Option<
    (SupervisorView, SuperviseActionView),
> {
    match (state, event) {
        (
            SupervisorView::Starting,
            SuperviseEventView::HeldBack { rate_limited, cooling_down },
        ) => Some(
            match (rate_limited, cooling_down) {
                (Some(retry_after), _) => (
                    SupervisorView::Releasing { head: HeadView::RateLimited { retry_after } },
                    SuperviseActionView::ReleaseUnsent,
                ),
                (None, Some(retry_after)) => (
                    SupervisorView::Releasing { head: HeadView::CoolingDown { retry_after } },
                    SuperviseActionView::ReleaseUnsent,
                ),
                (None, None) => (SupervisorView::Beginning, SuperviseActionView::BeginDispatch),
            },
        ),
        (SupervisorView::Releasing { head }, SuperviseEventView::Ledger(result)) => Some(
            (
                SupervisorView::Delivering {
                    disposition: ended_as(result, DispositionView::ReleasedUnsent),
                },
                SuperviseActionView::Deliver(head),
            ),
        ),
        (SupervisorView::Beginning, SuperviseEventView::Ledger(result)) => Some(
            match result {
                Ok(()) => (SupervisorView::Sending, SuperviseActionView::Send),
                Err(detail) => (
                    SupervisorView::Releasing { head: HeadView::NotSent(detail) },
                    SuperviseActionView::ReleaseUnsent,
                ),
            },
        ),
        (SupervisorView::Sending, SuperviseEventView::SendFailed { detail }) => Some(
            (SupervisorView::Recording { detail }, SuperviseActionView::RecordFailure),
        ),
        (SupervisorView::Recording { detail }, SuperviseEventView::Noted) => Some(
            (
                SupervisorView::Holding { head: HeadView::OutcomeUnknown(detail) },
                SuperviseActionView::Hold,
            ),
        ),
        (SupervisorView::Sending, SuperviseEventView::Answered { status }) => Some(
            on_answer(status),
        ),
        (SupervisorView::Closing { status }, SuperviseEventView::Ledger(result)) => Some(
            match result {
                Ok(()) => after_noting(status),
                Err(detail) => (
                    SupervisorView::Delivering {
                        disposition: DispositionView::LedgerFailed(detail),
                    },
                    SuperviseActionView::Deliver(
                        HeadView::Refused {
                            status,
                            decision: decision_for(status),
                            body: Seq::empty(),
                        },
                    ),
                ),
            },
        ),
        (SupervisorView::Noting { status }, SuperviseEventView::Noted) => Some(
            after_noting(status),
        ),
        (SupervisorView::RecordingRefusal { status }, SuperviseEventView::Noted) => Some(
            (SupervisorView::Reading { status }, SuperviseActionView::ReadBody),
        ),
        (SupervisorView::Reading { status }, SuperviseEventView::Body(body)) => Some(
            if decision_for(status).reservation is ReleaseRejected {
                (
                    SupervisorView::ReleasingRejected { status, body },
                    SuperviseActionView::ReleaseRejected,
                )
            } else {
                (
                    SupervisorView::Holding {
                        head: HeadView::Refused { status, decision: decision_for(status), body },
                    },
                    SuperviseActionView::Hold,
                )
            },
        ),
        (SupervisorView::ReleasingRejected { status, body }, SuperviseEventView::Ledger(result)) =>
        Some(
            (
                SupervisorView::Delivering {
                    disposition: ended_as(result, DispositionView::ReleasedRejected),
                },
                SuperviseActionView::Deliver(
                    HeadView::Refused { status, decision: decision_for(status), body },
                ),
            ),
        ),
        (SupervisorView::Holding { head }, SuperviseEventView::Ledger(result)) => Some(
            (
                SupervisorView::Delivering {
                    disposition: ended_as(result, DispositionView::HeldAsUnknown),
                },
                SuperviseActionView::Deliver(head),
            ),
        ),
        (SupervisorView::Delivering { disposition }, SuperviseEventView::Delivered) => Some(
            (SupervisorView::Done, SuperviseActionView::Finish(disposition)),
        ),
        (SupervisorView::Relaying, SuperviseEventView::Relayed(disposition)) => Some(
            (SupervisorView::Done, SuperviseActionView::Finish(disposition)),
        ),
        _ => None,
    }
}

pub open spec fn step_view(step: Option<(Supervisor, SuperviseAction)>) -> Option<
    (SupervisorView, SuperviseActionView),
> {
    match step {
        Some((state, action)) => Some((state@, action@)),
        None => None,
    }
}

/// The end of a ledger transition: what it was for, or its failure.
fn ended(result: Result<(), String>, disposition: Disposition) -> (end: Disposition)
    ensures
        end@ == ended_as(done_view(result), disposition@),
{
    match result {
        Ok(()) => disposition,
        Err(detail) => Disposition::LedgerFailed(detail),
    }
}

/// What becomes of a response once its limits are noted, or the provider is
/// closed.
fn proceed(status: u16) -> (step: (Supervisor, SuperviseAction))
    ensures
        (step.0@, step.1@) == after_noting(status),
{
    match decide(status).reservation {
        ReservationAction::Settle => (Supervisor::Relaying, SuperviseAction::Relay),
        ReservationAction::ReleaseRejected => (
            Supervisor::Reading { status },
            SuperviseAction::ReadBody,
        ),
        ReservationAction::HoldAsUnknown => (
            Supervisor::RecordingRefusal { status },
            SuperviseAction::RecordFailure,
        ),
    }
}

impl Supervisor {
    /// A supervisor that has not begun.
    pub fn new() -> (supervisor: Supervisor)
        ensures
            supervisor@ is Starting,
    {
        Supervisor::Starting
    }

    /// The next state and action; `None` where the event does not answer what
    /// the supervisor is waiting for.
    pub fn step(self, event: SuperviseEvent) -> (next: Option<(Supervisor, SuperviseAction)>)
        ensures
            step_view(next) == supervise_step(self@, event@),
    {
        match (self, event) {
            (Supervisor::Starting, SuperviseEvent::HeldBack { rate_limited, cooling_down }) => {
                // Sending into a limit that has not reset only earns another
                // 429, and sending into a failing provider only holds another
                // reservation.
                match (rate_limited, cooling_down) {
                    (Some(retry_after), _) => Some(
                        (
                            Supervisor::Releasing { head: Head::RateLimited { retry_after } },
                            SuperviseAction::ReleaseUnsent,
                        ),
                    ),
                    (None, Some(retry_after)) => Some(
                        (
                            Supervisor::Releasing { head: Head::CoolingDown { retry_after } },
                            SuperviseAction::ReleaseUnsent,
                        ),
                    ),
                    (None, None) => Some((Supervisor::Beginning, SuperviseAction::BeginDispatch)),
                }
            },
            (Supervisor::Releasing { head }, SuperviseEvent::Ledger(result)) => Some(
                (
                    Supervisor::Delivering {
                        disposition: ended(result, Disposition::ReleasedUnsent),
                    },
                    SuperviseAction::Deliver(head),
                ),
            ),
            (Supervisor::Beginning, SuperviseEvent::Ledger(result)) => match result {
                Ok(()) => Some((Supervisor::Sending, SuperviseAction::Send)),
                Err(detail) => Some(
                    (
                        Supervisor::Releasing { head: Head::NotSent(detail) },
                        SuperviseAction::ReleaseUnsent,
                    ),
                ),
            },
            (Supervisor::Sending, SuperviseEvent::SendFailed { detail }) => Some(
                (Supervisor::Recording { detail }, SuperviseAction::RecordFailure),
            ),
            (Supervisor::Recording { detail }, SuperviseEvent::Noted) => Some(
                (
                    Supervisor::Holding { head: Head::OutcomeUnknown(detail) },
                    SuperviseAction::Hold,
                ),
            ),
            (Supervisor::Sending, SuperviseEvent::Answered { status }) => {
                let action = match decide(status).provider {
                    ProviderAction::CloseUntilRemediated => return Some(
                        (
                            Supervisor::Closing { status },
                            SuperviseAction::CloseProvider { status },
                        ),
                    ),
                    ProviderAction::BackOff => SuperviseAction::NoteRateLimited,
                    ProviderAction::Keep => if 200 <= status && status <= 299 {
                        SuperviseAction::NoteHeaders
                    } else {
                        SuperviseAction::NoteNothing
                    },
                };
                Some((Supervisor::Noting { status }, action))
            },
            (Supervisor::Closing { status }, SuperviseEvent::Ledger(result)) => match result {
                Ok(()) => Some(proceed(status)),
                // The ledger cannot be written to: the reservation is left as
                // sent.
                Err(detail) => Some(
                    (
                        Supervisor::Delivering { disposition: Disposition::LedgerFailed(detail) },
                        SuperviseAction::Deliver(
                            Head::Refused { status, decision: decide(status), body: Vec::new() },
                        ),
                    ),
                ),
            },
            (Supervisor::Noting { status }, SuperviseEvent::Noted) => Some(proceed(status)),
            (Supervisor::RecordingRefusal { status }, SuperviseEvent::Noted) => Some(
                (Supervisor::Reading { status }, SuperviseAction::ReadBody),
            ),
            (Supervisor::Reading { status }, SuperviseEvent::Body(body)) => {
                let decision = decide(status);
                if matches!(decision.reservation, ReservationAction::ReleaseRejected) {
                    Some(
                        (
                            Supervisor::ReleasingRejected { status, body },
                            SuperviseAction::ReleaseRejected,
                        ),
                    )
                } else {
                    Some(
                        (
                            Supervisor::Holding { head: Head::Refused { status, decision, body } },
                            SuperviseAction::Hold,
                        ),
                    )
                }
            },
            (Supervisor::ReleasingRejected { status, body }, SuperviseEvent::Ledger(result)) => {
                let decision = decide(status);
                Some(
                    (
                        Supervisor::Delivering {
                            disposition: ended(result, Disposition::ReleasedRejected),
                        },
                        SuperviseAction::Deliver(Head::Refused { status, decision, body }),
                    ),
                )
            },
            (Supervisor::Holding { head }, SuperviseEvent::Ledger(result)) => Some(
                (
                    Supervisor::Delivering {
                        disposition: ended(result, Disposition::HeldAsUnknown),
                    },
                    SuperviseAction::Deliver(head),
                ),
            ),
            (Supervisor::Delivering { disposition }, SuperviseEvent::Delivered) => Some(
                (Supervisor::Done, SuperviseAction::Finish(disposition)),
            ),
            (Supervisor::Relaying, SuperviseEvent::Relayed(disposition)) => Some(
                (Supervisor::Done, SuperviseAction::Finish(disposition)),
            ),
            _ => None,
        }
    }
}

/// Law: a request is sent only once `DISPATCHING` is durable.
pub proof fn nothing_is_sent_before_dispatching_is_durable(
    state: SupervisorView,
    event: SuperviseEventView,
)
    requires
        supervise_step(state, event) matches Some((_, action)) && action is Send,
    ensures
        state is Beginning,
        event matches SuperviseEventView::Ledger(Ok(_)),
{
}

/// How far a supervisor has come.
pub open spec fn progress(state: SupervisorView) -> nat {
    match state {
        SupervisorView::Starting => 0,
        SupervisorView::Beginning => 1,
        SupervisorView::Sending => 2,
        SupervisorView::Recording { .. } => 3,
        SupervisorView::Noting { .. } => 3,
        SupervisorView::Closing { .. } => 3,
        SupervisorView::RecordingRefusal { .. } => 4,
        SupervisorView::Reading { .. } => 5,
        SupervisorView::ReleasingRejected { .. } => 6,
        SupervisorView::Releasing { .. } => 6,
        SupervisorView::Holding { .. } => 6,
        SupervisorView::Relaying => 6,
        SupervisorView::Delivering { .. } => 7,
        SupervisorView::Done => 8,
    }
}

/// Law: every step goes forward, so a permit sends at most one request and a
/// supervisor always ends.
pub proof fn a_supervisor_only_goes_forward(state: SupervisorView, event: SuperviseEventView)
    ensures
        supervise_step(state, event) matches Some((next, _)) ==> progress(next) > progress(state),
{
}

/// Whether the request may have reached upstream.
pub open spec fn was_sent(state: SupervisorView) -> bool {
    match state {
        SupervisorView::Sending | SupervisorView::Recording { .. } | SupervisorView::Noting { .. }
        | SupervisorView::Closing { .. } | SupervisorView::RecordingRefusal { .. }
        | SupervisorView::Reading { .. } | SupervisorView::ReleasingRejected { .. } | SupervisorView::Holding { .. }
        | SupervisorView::Relaying => true,
        _ => false,
    }
}

/// Whether the status a state carries is one it can be reached with.
pub open spec fn fits_status(state: SupervisorView) -> bool {
    match state {
        SupervisorView::ReleasingRejected { status, .. } => decision_for(
            status,
        ).reservation is ReleaseRejected,
        SupervisorView::RecordingRefusal { status } => decision_for(
            status,
        ).reservation is HoldAsUnknown,
        SupervisorView::Reading { status } => !(decision_for(status).reservation is Settle),
        SupervisorView::Closing { status } => closes_the_provider(status),
        _ => true,
    }
}

/// Law: a request that may have reached upstream is never released unsent; it
/// is released as rejected only on a status that proves processing never
/// started, and otherwise held or relayed.
pub proof fn what_was_sent_is_released_only_on_proof(
    state: SupervisorView,
    event: SuperviseEventView,
)
    requires
        fits_status(state),
    ensures
        supervise_step(state, event) matches Some((next, action)) ==> {
            &&& fits_status(next)
            &&& was_sent(state) ==> !(action is ReleaseUnsent)
            &&& action is ReleaseRejected ==> (state matches SupervisorView::Reading { status }
                && decision_for(status).reservation is ReleaseRejected)
            &&& action is Relay ==> (state matches SupervisorView::Noting { status } && is_success(
                status,
            ))
        },
{
}

/// Law: a redirect, 401, 402, 403 or 404 closes the provider before anything
/// else is done about it, no other answer does, and unless the closing is
/// durable the reservation stays as sent.
pub proof fn a_closing_status_closes_the_provider_first(status: u16, result: Result<(), Seq<char>>)
    ensures
        supervise_step(SupervisorView::Sending, SuperviseEventView::Answered { status }) matches Some(
            (next, action),
        ) && {
            &&& action is CloseProvider <==> closes_the_provider(status)
            &&& closes_the_provider(status) ==> next == (SupervisorView::Closing { status })
                && action == (SuperviseActionView::CloseProvider { status })
        },
        supervise_step(
            SupervisorView::Closing { status },
            SuperviseEventView::Ledger(result),
        ) matches Some((next, action)) && {
            &&& result is Ok ==> (next, action) == after_noting(status)
            &&& result is Err ==> next is Delivering && action is Deliver
        },
{
}

// ---------------------------------------------------------------------------
// Error bodies.

/// Appends a chunk to a body that is kept up to a cap.
pub open spec fn capped_append(body: Seq<u8>, chunk: Seq<u8>, cap: nat) -> Seq<u8> {
    if body.len() >= cap {
        body
    } else if body.len() + chunk.len() <= cap {
        body + chunk
    } else {
        body + chunk.take(cap - body.len())
    }
}

/// Appends a chunk to a body that is kept up to a cap, and says whether the
/// body is full.
pub fn append_capped(body: &mut Vec<u8>, chunk: &[u8], cap: usize) -> (full: bool)
    ensures
        final(body)@ == capped_append(old(body)@, chunk@, cap as nat),
        full == (final(body)@.len() >= cap),
{
    let ghost before = body@;
    let mut i: usize = 0;
    while i < chunk.len() && body.len() < cap
        invariant
            i <= chunk@.len(),
            body@ == before + chunk@.take(i as int),
            i > 0 ==> body@.len() <= cap,
        decreases chunk.len() - i,
    {
        body.push(chunk[i]);
        i = i + 1;
        assert(chunk@.take(i as int) =~= chunk@.take(i - 1).push(chunk@[i - 1]));
    }
    assert(body@ =~= capped_append(before, chunk@, cap as nat));
    body.len() >= cap
}

/// Law: what is kept of a body is its beginning, as much of it as the cap
/// allows, and it does not matter in what pieces the body came.
pub proof fn the_beginning_of_a_body_is_kept(
    body: Seq<u8>,
    first: Seq<u8>,
    second: Seq<u8>,
    cap: nat,
)
    requires
        body.len() <= cap,
    ensures
        ({
            let kept = capped_append(body, first, cap);
            &&& kept.is_prefix_of(body + first)
            &&& kept == body + first || kept.len() == cap
            &&& kept.len() <= cap
            &&& capped_append(kept, second, cap) == capped_append(body, first + second, cap)
        }),
{
    let kept = capped_append(body, first, cap);
    if body.len() + first.len() + second.len() <= cap {
        assert(body + first + second =~= body + (first + second));
    } else if body.len() + first.len() <= cap {
        assert(capped_append(kept, second, cap) =~= capped_append(body, first + second, cap));
    } else {
        assert(capped_append(kept, second, cap) =~= capped_append(body, first + second, cap));
    }
}

} // verus!
