//! Failures of the ledger itself. An admission refusal is not an error.
use vstd::prelude::*;
use vstd::string::*;

use crate::state::State;
use crate::text::{decimal_text, push_decimal, push_signed, signed_text};

verus! {

#[derive(Debug, PartialEq, Eq)]
pub enum LedgerError {
    /// The storage configuration the safety argument depends on is not in
    /// effect, for example WAL could not be enabled.
    StorageContract(String),
    Overflow,
    NotFound(i64),
    IllegalTransition { root_id: i64, from: State, to: State },
    /// Stored counters disagree with the rows they summarise, or a row is in a
    /// shape the schema should have prevented.
    Integrity(String),
    /// A row that the tables' constraints do not admit was refused.
    ConstraintViolated,
    /// Another process holds the lock.
    Locked,
    /// The provider was closed, and nobody has cleared it.
    ProviderClosed { scope: String, reason: String },
    /// As many dispatches are open as there may be.
    TooManyInFlight { open: usize },
    /// The body is not the one the reservation was made for.
    BodyMismatch(i64),
}

/// A ledger error with its texts as characters.
pub enum ErrorView {
    StorageContract(Seq<char>),
    Overflow,
    NotFound(i64),
    IllegalTransition { root_id: i64, from: State, to: State },
    Integrity(Seq<char>),
    ConstraintViolated,
    Locked,
    ProviderClosed { scope: Seq<char>, reason: Seq<char> },
    TooManyInFlight { open: usize },
    BodyMismatch(i64),
}

impl View for LedgerError {
    type V = ErrorView;

    open spec fn view(&self) -> ErrorView {
        match *self {
            LedgerError::StorageContract(text) => ErrorView::StorageContract(text@),
            LedgerError::Overflow => ErrorView::Overflow,
            LedgerError::NotFound(id) => ErrorView::NotFound(id),
            LedgerError::IllegalTransition { root_id, from, to } => ErrorView::IllegalTransition {
                root_id,
                from,
                to,
            },
            LedgerError::Integrity(text) => ErrorView::Integrity(text@),
            LedgerError::ConstraintViolated => ErrorView::ConstraintViolated,
            LedgerError::Locked => ErrorView::Locked,
            LedgerError::ProviderClosed { scope, reason } => ErrorView::ProviderClosed {
                scope: scope@,
                reason: reason@,
            },
            LedgerError::TooManyInFlight { open } => ErrorView::TooManyInFlight { open },
            LedgerError::BodyMismatch(root_id) => ErrorView::BodyMismatch(root_id),
        }
    }
}

/// A result with its error seen through its view.
pub open spec fn plain<T>(result: Result<T, LedgerError>) -> Result<T, ErrorView> {
    match result {
        Ok(value) => Ok(value),
        Err(error) => Err(error@),
    }
}

/// How a state is written in a message.
pub open spec fn state_label(state: State) -> Seq<char> {
    match state {
        State::Reserved => "Reserved"@,
        State::Dispatching => "Dispatching"@,
        State::DispatchedWithId => "DispatchedWithId"@,
        State::DispatchedIdUnknown => "DispatchedIdUnknown"@,
        State::Settled => "Settled"@,
        State::ConsumedUnrecoverable => "ConsumedUnrecoverable"@,
        State::ReleasedUnsent => "ReleasedUnsent"@,
        State::RejectedBeforeProcessing => "RejectedBeforeProcessing"@,
    }
}

fn label(state: State) -> (text: &'static str)
    ensures
        text@ == state_label(state),
{
    match state {
        State::Reserved => "Reserved",
        State::Dispatching => "Dispatching",
        State::DispatchedWithId => "DispatchedWithId",
        State::DispatchedIdUnknown => "DispatchedIdUnknown",
        State::Settled => "Settled",
        State::ConsumedUnrecoverable => "ConsumedUnrecoverable",
        State::ReleasedUnsent => "ReleasedUnsent",
        State::RejectedBeforeProcessing => "RejectedBeforeProcessing",
    }
}

/// The sentence an error is reported with.
pub open spec fn error_text(error: ErrorView) -> Seq<char> {
    match error {
        ErrorView::StorageContract(text) => "storage contract not met: "@ + text,
        ErrorView::Overflow => "arithmetic overflow in ledger accounting"@,
        ErrorView::NotFound(id) => "reservation "@ + signed_text(id as int) + " not found"@,
        ErrorView::IllegalTransition { root_id, from, to } => {
            "illegal transition for reservation group "@ + signed_text(root_id as int) + ": "@
                + state_label(from) + " does not allow "@ + state_label(to)
        },
        ErrorView::Integrity(text) => "integrity violation: "@ + text,
        ErrorView::ConstraintViolated => "a table constraint refused the row"@,
        ErrorView::Locked => "another process holds the ledger lock for this pool"@,
        ErrorView::ProviderClosed { scope, reason } => "the provider is closed ("@ + scope + "): "@
            + reason,
        ErrorView::TooManyInFlight { open } => decimal_text(open as nat)
            + " dispatches are still open"@,
        ErrorView::BodyMismatch(root_id) => "the body is not the one reservation group "@
            + signed_text(root_id as int) + " was made for"@,
    }
}

impl LedgerError {
    /// The sentence this error is reported with.
    pub fn message(&self) -> (text: String)
        ensures
            text@ == error_text(self@),
    {
        match self {
            LedgerError::StorageContract(detail) => {
                let mut text = String::from_str("storage contract not met: ");
                text.push_str(detail.as_str());
                text
            },
            LedgerError::Overflow => String::from_str("arithmetic overflow in ledger accounting"),
            LedgerError::NotFound(id) => {
                let mut text = String::from_str("reservation ");
                push_signed(&mut text, *id);
                text.push_str(" not found");
                text
            },
            LedgerError::IllegalTransition { root_id, from, to } => {
                let mut text = String::from_str("illegal transition for reservation group ");
                push_signed(&mut text, *root_id);
                text.push_str(": ");
                text.push_str(label(*from));
                text.push_str(" does not allow ");
                text.push_str(label(*to));
                text
            },
            LedgerError::Integrity(detail) => {
                let mut text = String::from_str("integrity violation: ");
                text.push_str(detail.as_str());
                text
            },
            LedgerError::ConstraintViolated => {
                String::from_str("a table constraint refused the row")
            },
            LedgerError::Locked => {
                String::from_str("another process holds the ledger lock for this pool")
            },
            LedgerError::ProviderClosed { scope, reason } => {
                let mut text = String::from_str("the provider is closed (");
                text.push_str(scope.as_str());
                text.push_str("): ");
                text.push_str(reason.as_str());
                text
            },
            LedgerError::TooManyInFlight { open } => {
                let mut text = String::new();
                push_decimal(&mut text, *open as u128);
                text.push_str(" dispatches are still open");
                text
            },
            LedgerError::BodyMismatch(root_id) => {
                let mut text = String::from_str("the body is not the one reservation group ");
                push_signed(&mut text, *root_id);
                text.push_str(" was made for");
                text
            },
        }
    }
}

} // verus!
