//! Sending to OpenRouter, where the allowance is counted in requests.
//!
//! The shape of this path is deliberately unlike the OpenAI one. There, a
//! liability is reserved, the dispatch is made durable before a byte moves,
//! and the reservation is settled or released from what came back. Here there
//! is nothing to settle: the slot is taken before sending and stays taken
//! whatever happens, because a request that fails spends one of the fifty just
//! the same.
//!
//! Two limits come before the slot, and neither spends one: the reactive rate
//! limit, which a 429 closes, and the short window inside the ledger's own
//! transaction. OpenRouter returns no rate-limit headers on success, so the
//! window is the one that does the work; the other is the second line. A
//! provider that was closed grants no slot at all.
use vstd::prelude::*;
use vstd::string::*;

use crate::dispatch::done_view;
use crate::requests::{RequestSlot, RequestWindow};
use crate::sending::SlotAnswer;
use crate::status_policy::{closes_the_provider, decide, is_success, ProviderAction};

verus! {

/// What happened to one attempt at the OpenRouter route, where it is not a
/// stream to relay.
#[derive(Debug, PartialEq, Eq)]
pub enum Sent {
    /// OpenRouter refused the request itself. The slot is spent.
    Refused { status: u16, body: Vec<u8> },
    /// The day's allowance is gone. Nothing was sent.
    Exhausted { used: i64, limit: i64 },
    /// A rate limit holds the route back. Nothing was sent, nothing spent.
    HeldBack { retry_after: u64 },
    /// The provider is closed until it is remediated. Nothing was sent, nothing
    /// spent.
    Closed,
    /// Sent, and the outcome is unknown. The slot is spent.
    Failed(String),
}

pub enum SentView {
    Refused { status: u16, body: Seq<u8> },
    Exhausted { used: i64, limit: i64 },
    HeldBack { retry_after: u64 },
    Closed,
    Failed(Seq<char>),
}

impl View for Sent {
    type V = SentView;

    open spec fn view(&self) -> SentView {
        match *self {
            Sent::Refused { status, body } => SentView::Refused { status, body: body@ },
            Sent::Exhausted { used, limit } => SentView::Exhausted { used, limit },
            Sent::HeldBack { retry_after } => SentView::HeldBack { retry_after },
            Sent::Closed => SentView::Closed,
            Sent::Failed(detail) => SentView::Failed(detail@),
        }
    }
}

#[derive(Debug)]
pub struct OpenRouterPolicy {
    pub pool_id: String,
    pub daily_request_limit: u64,
    pub window: RequestWindow,
    pub max_error_body_bytes: usize,
    pub channel_capacity: usize,
}

/// What an attempt is waiting for.
#[derive(Debug, Clone, Copy, PartialEq, Eq, Structural)]
pub enum Attempt {
    /// To learn whether a rate limit holds the route back.
    Starting,
    /// A request slot.
    TakingSlot,
    /// An answer.
    Sending,
    /// A 429's headers to be noted.
    Noting,
    /// The provider to be closed.
    Closing { status: u16 },
    /// The body of a refusal.
    Reading { status: u16 },
    Done,
}

/// What became of an action.
#[derive(Debug)]
pub enum AttemptEvent {
    /// How long the rate limit still holds the route back, in nanoseconds.
    HeldBack { rate_limited: Option<u64> },
    /// The slot, or why the ledger gave no answer.
    Slot(Result<SlotAnswer, String>),
    /// No answer came.
    SendFailed { detail: String },
    Answered { status: u16 },
    Noted,
    /// The provider was closed, or why it was not.
    Closed(Result<(), String>),
    /// The body of a refusal, as far as it is kept.
    Body(Vec<u8>),
}

pub enum AttemptEventView {
    HeldBack { rate_limited: Option<u64> },
    Slot(Result<SlotAnswer, Seq<char>>),
    SendFailed { detail: Seq<char> },
    Answered { status: u16 },
    Noted,
    Closed(Result<(), Seq<char>>),
    Body(Seq<u8>),
}

pub open spec fn slot_view(result: Result<SlotAnswer, String>) -> Result<SlotAnswer, Seq<char>> {
    match result {
        Ok(slot) => Ok(slot),
        Err(detail) => Err(detail@),
    }
}

impl View for AttemptEvent {
    type V = AttemptEventView;

    open spec fn view(&self) -> AttemptEventView {
        match *self {
            AttemptEvent::HeldBack { rate_limited } => AttemptEventView::HeldBack { rate_limited },
            AttemptEvent::Slot(result) => AttemptEventView::Slot(slot_view(result)),
            AttemptEvent::SendFailed { detail } => AttemptEventView::SendFailed {
                detail: detail@,
            },
            AttemptEvent::Answered { status } => AttemptEventView::Answered { status },
            AttemptEvent::Noted => AttemptEventView::Noted,
            AttemptEvent::Closed(result) => AttemptEventView::Closed(done_view(result)),
            AttemptEvent::Body(bytes) => AttemptEventView::Body(bytes@),
        }
    }
}

/// What is to be done next.
#[derive(Debug)]
pub enum AttemptAction {
    TakeSlot,
    Send,
    /// Close the rate limit from the headers of the 429.
    NoteRateLimited,
    /// Close the provider, durably.
    CloseProvider { status: u16 },
    /// Read the body of the refusal, up to the cap.
    ReadBody,
    /// Relay the stream. There is no observer: nothing here needs the
    /// response id, and there is no reservation to settle.
    Stream,
    Finish(Sent),
}

pub enum AttemptActionView {
    TakeSlot,
    Send,
    NoteRateLimited,
    CloseProvider { status: u16 },
    ReadBody,
    Stream,
    Finish(SentView),
}

impl View for AttemptAction {
    type V = AttemptActionView;

    open spec fn view(&self) -> AttemptActionView {
        match *self {
            AttemptAction::TakeSlot => AttemptActionView::TakeSlot,
            AttemptAction::Send => AttemptActionView::Send,
            AttemptAction::NoteRateLimited => AttemptActionView::NoteRateLimited,
            AttemptAction::CloseProvider { status } => AttemptActionView::CloseProvider { status },
            AttemptAction::ReadBody => AttemptActionView::ReadBody,
            AttemptAction::Stream => AttemptActionView::Stream,
            AttemptAction::Finish(sent) => AttemptActionView::Finish(sent@),
        }
    }
}

/// Seconds of a full window as nanoseconds: at least one second.
pub open spec fn window_wait(seconds: i64) -> u64 {
    let whole = if seconds < 1 {
        1
    } else {
        seconds as int
    };
    if whole * 1_000_000_000 <= u64::MAX {
        (whole * 1_000_000_000) as u64
    } else {
        u64::MAX
    }
}

/// What the ledger's answer leads to.
pub open spec fn on_slot(slot: Result<SlotAnswer, Seq<char>>) -> (Attempt, AttemptActionView) {
    match slot {
        Ok(SlotAnswer::Closed) => (Attempt::Done, AttemptActionView::Finish(SentView::Closed)),
        Ok(SlotAnswer::Slot(RequestSlot::Granted { .. })) => (
            Attempt::Sending,
            AttemptActionView::Send,
        ),
        Ok(SlotAnswer::Slot(RequestSlot::Exhausted { used, limit })) => (
            Attempt::Done,
            AttemptActionView::Finish(SentView::Exhausted { used, limit }),
        ),
        Ok(SlotAnswer::Slot(RequestSlot::WindowFull { retry_after_seconds })) => (
            Attempt::Done,
            AttemptActionView::Finish(
                SentView::HeldBack { retry_after: window_wait(retry_after_seconds) },
            ),
        ),
        Err(detail) => (Attempt::Done, AttemptActionView::Finish(SentView::Failed(detail))),
    }
}

/// The attempt's next state and action; `None` where the event does not
/// answer what it is waiting for.
pub open spec fn attempt_step(state: Attempt, event: AttemptEventView) -> Option<
    (Attempt, AttemptActionView),
> {
    match (state, event) {
        (Attempt::Starting, AttemptEventView::HeldBack { rate_limited }) => Some(
            match rate_limited {
                Some(retry_after) => (
                    Attempt::Done,
                    AttemptActionView::Finish(SentView::HeldBack { retry_after }),
                ),
                None => (Attempt::TakingSlot, AttemptActionView::TakeSlot),
            },
        ),
        (Attempt::TakingSlot, AttemptEventView::Slot(slot)) => Some(on_slot(slot)),
        (Attempt::Sending, AttemptEventView::SendFailed { detail }) => Some(
            (Attempt::Done, AttemptActionView::Finish(SentView::Failed(detail))),
        ),
        (Attempt::Sending, AttemptEventView::Answered { status }) => Some(
            if status == 429 {
                (Attempt::Noting, AttemptActionView::NoteRateLimited)
            } else if is_success(status) {
                (Attempt::Done, AttemptActionView::Stream)
            } else if closes_the_provider(status) {
                (Attempt::Closing { status }, AttemptActionView::CloseProvider { status })
            } else {
                (Attempt::Reading { status }, AttemptActionView::ReadBody)
            },
        ),
        (Attempt::Closing { status }, AttemptEventView::Closed(result)) => Some(
            match result {
                Ok(()) => (Attempt::Reading { status }, AttemptActionView::ReadBody),
                Err(detail) => (
                    Attempt::Done,
                    AttemptActionView::Finish(SentView::Failed(detail)),
                ),
            },
        ),
        (Attempt::Noting, AttemptEventView::Noted) => Some(
            (Attempt::Reading { status: 429 }, AttemptActionView::ReadBody),
        ),
        (Attempt::Reading { status }, AttemptEventView::Body(body)) => Some(
            (Attempt::Done, AttemptActionView::Finish(SentView::Refused { status, body })),
        ),
        _ => None,
    }
}

pub open spec fn attempt_view(step: Option<(Attempt, AttemptAction)>) -> Option<
    (Attempt, AttemptActionView),
> {
    match step {
        Some((state, action)) => Some((state, action@)),
        None => None,
    }
}

fn wait_of(seconds: i64) -> (nanos: u64)
    ensures
        nanos == window_wait(seconds),
{
    let whole: u128 = if seconds < 1 {
        1
    } else {
        seconds as u128
    };
    let nanos: u128 = whole * 1_000_000_000;
    if nanos <= u64::MAX as u128 {
        nanos as u64
    } else {
        u64::MAX
    }
}

impl Attempt {
    /// The next state and action; `None` where the event does not answer what
    /// the attempt is waiting for.
    pub fn step(self, event: AttemptEvent) -> (next: Option<(Attempt, AttemptAction)>)
        ensures
            attempt_view(next) == attempt_step(self, event@),
    {
        match (self, event) {
            (Attempt::Starting, AttemptEvent::HeldBack { rate_limited }) => match rate_limited {
                Some(retry_after) => Some(
                    (Attempt::Done, AttemptAction::Finish(Sent::HeldBack { retry_after })),
                ),
                None => Some((Attempt::TakingSlot, AttemptAction::TakeSlot)),
            },
            (Attempt::TakingSlot, AttemptEvent::Slot(slot)) => match slot {
                Ok(SlotAnswer::Closed) => Some(
                    (Attempt::Done, AttemptAction::Finish(Sent::Closed)),
                ),
                Ok(SlotAnswer::Slot(RequestSlot::Granted { .. })) => Some(
                    (Attempt::Sending, AttemptAction::Send),
                ),
                Ok(SlotAnswer::Slot(RequestSlot::Exhausted { used, limit })) => Some(
                    (Attempt::Done, AttemptAction::Finish(Sent::Exhausted { used, limit })),
                ),
                Ok(SlotAnswer::Slot(RequestSlot::WindowFull { retry_after_seconds })) => Some(
                    (
                        Attempt::Done,
                        AttemptAction::Finish(
                            Sent::HeldBack { retry_after: wait_of(retry_after_seconds) },
                        ),
                    ),
                ),
                Err(detail) => Some((Attempt::Done, AttemptAction::Finish(Sent::Failed(detail)))),
            },
            // From here the slot is spent, whatever comes back.
            (Attempt::Sending, AttemptEvent::SendFailed { detail }) => Some(
                (Attempt::Done, AttemptAction::Finish(Sent::Failed(detail))),
            ),
            (Attempt::Sending, AttemptEvent::Answered { status }) => {
                if status == 429 {
                    Some((Attempt::Noting, AttemptAction::NoteRateLimited))
                } else if 200 <= status && status <= 299 {
                    Some((Attempt::Done, AttemptAction::Stream))
                } else if matches!(decide(status).provider, ProviderAction::CloseUntilRemediated) {
                    Some((Attempt::Closing { status }, AttemptAction::CloseProvider { status }))
                } else {
                    Some((Attempt::Reading { status }, AttemptAction::ReadBody))
                }
            },
            (Attempt::Closing { status }, AttemptEvent::Closed(result)) => match result {
                Ok(()) => Some((Attempt::Reading { status }, AttemptAction::ReadBody)),
                Err(detail) => Some((Attempt::Done, AttemptAction::Finish(Sent::Failed(detail)))),
            },
            (Attempt::Noting, AttemptEvent::Noted) => Some(
                (Attempt::Reading { status: 429 }, AttemptAction::ReadBody),
            ),
            (Attempt::Reading { status }, AttemptEvent::Body(body)) => Some(
                (Attempt::Done, AttemptAction::Finish(Sent::Refused { status, body })),
            ),
            _ => None,
        }
    }
}

/// Law: nothing is sent without a slot, and a slot is never taken while the
/// route is held back.
pub proof fn nothing_is_sent_without_a_slot(state: Attempt, event: AttemptEventView)
    ensures
        attempt_step(state, event) matches Some((_, action)) ==> {
            &&& action is Send ==> state is TakingSlot && (event matches AttemptEventView::Slot(
                Ok(SlotAnswer::Slot(RequestSlot::Granted { .. })),
            ))
            &&& action is TakeSlot ==> state is Starting && event
                == (AttemptEventView::HeldBack { rate_limited: None })
        },
{
}

/// Law: a redirect, 401, 402, 403 or 404 closes the provider before anything
/// else is done about it, and no other answer does.
pub proof fn a_closing_answer_closes_the_route(status: u16)
    ensures
        attempt_step(Attempt::Sending, AttemptEventView::Answered { status }) matches Some(
            (next, action),
        ) && {
            &&& action is CloseProvider <==> closes_the_provider(status)
            &&& closes_the_provider(status) ==> next == (Attempt::Closing { status }) && action
                == (AttemptActionView::CloseProvider { status })
        },
{
}

/// Law: every step goes forward, so an attempt takes at most one slot and
/// sends at most once.
pub proof fn an_attempt_only_goes_forward(state: Attempt, event: AttemptEventView)
    ensures
        attempt_step(state, event) matches Some((next, _)) ==> attempt_progress(next)
            > attempt_progress(state),
{
}

/// How far an attempt has come.
pub open spec fn attempt_progress(state: Attempt) -> nat {
    match state {
        Attempt::Starting => 0,
        Attempt::TakingSlot => 1,
        Attempt::Sending => 2,
        Attempt::Noting => 3,
        Attempt::Closing { .. } => 3,
        Attempt::Reading { .. } => 4,
        Attempt::Done => 5,
    }
}

} // verus!
