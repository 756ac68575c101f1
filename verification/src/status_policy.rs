//! What an upstream HTTP status means for the client, the provider, and the
//! reservation.
//!
//! Statuses are decided one by one, never as broad classes. Treating every
//! 4xx as the client's fault would return OpenRouter's 402 to the client, when
//! that 402 is exactly what the zero-balance safety design produces and the
//! request should move on to the next provider.
use vstd::prelude::*;

verus! {

#[derive(Debug, Clone, Copy, PartialEq, Eq, Structural)]
pub enum ClientAction {
    /// Relay the upstream response stream.
    Relay,
    /// The request itself is at fault. Return the error; another provider
    /// would reject it too.
    ReturnError,
    /// Try the next provider in the fallback chain.
    TryNextProvider,
}

#[derive(Debug, Clone, Copy, PartialEq, Eq, Structural)]
pub enum ProviderAction {
    Keep,
    /// A configuration or safety failure. Persisted, so the provider stays
    /// closed across restarts until someone remediates it.
    CloseUntilRemediated,
    /// Rate limited. The dispatcher holds the provider back until the limit
    /// resets; nothing is persisted.
    BackOff,
}

#[derive(Debug, Clone, Copy, PartialEq, Eq, Structural)]
pub enum ReservationAction {
    /// A response is under way. Settle it from the stream or by retrieval.
    Settle,
    /// Upstream refused the create request itself with a status proving
    /// processing never started. Release the reservation.
    ReleaseRejected,
    /// The outcome cannot be shown not to have started generation. Hold the
    /// reservation as sent with an unknown id; it is written off at its
    /// deadline.
    HoldAsUnknown,
}

#[derive(Debug, Clone, Copy, PartialEq, Eq, Structural)]
pub struct StatusDecision {
    pub client: ClientAction,
    pub provider: ProviderAction,
    pub reservation: ReservationAction,
}

/// Whether a status says that the request succeeded.
pub open spec fn is_success(status: u16) -> bool {
    200 <= status <= 299
}

/// Whether a status is a redirect. Provider APIs do not redirect. Whoever
/// answered may not be the provider, and the original request may have been
/// forwarded and processed.
pub open spec fn is_redirect(status: u16) -> bool {
    300 <= status <= 399
}

/// The statuses that prove processing never started.
pub open spec fn proves_unprocessed(status: u16) -> bool {
    status == 400 || status == 401 || status == 402 || status == 403 || status == 404 || status
        == 422 || status == 429
}

/// The statuses of a provider that is misconfigured or whose safety posture
/// has changed: credentials, payment, or an endpoint that does not exist.
pub open spec fn closes_the_provider(status: u16) -> bool {
    is_redirect(status) || status == 401 || status == 402 || status == 403 || status == 404
}

/// What a status means.
pub open spec fn decision_for(status: u16) -> StatusDecision {
    StatusDecision {
        client: if is_success(status) {
            ClientAction::Relay
        } else if status == 400 || status == 422 {
            ClientAction::ReturnError
        } else {
            ClientAction::TryNextProvider
        },
        provider: if closes_the_provider(status) {
            ProviderAction::CloseUntilRemediated
        } else if status == 429 {
            ProviderAction::BackOff
        } else {
            ProviderAction::Keep
        },
        reservation: if is_success(status) {
            ReservationAction::Settle
        } else if proves_unprocessed(status) {
            ReservationAction::ReleaseRejected
        } else {
            ReservationAction::HoldAsUnknown
        },
    }
}

pub fn decide(status: u16) -> (decision: StatusDecision)
    ensures
        decision == decision_for(status),
{
    match status {
        200..=299 => StatusDecision {
            client: ClientAction::Relay,
            provider: ProviderAction::Keep,
            reservation: ReservationAction::Settle,
        },
        // Never followed, and the reservation is held.
        300..=399 => StatusDecision {
            client: ClientAction::TryNextProvider,
            provider: ProviderAction::CloseUntilRemediated,
            reservation: ReservationAction::HoldAsUnknown,
        },
        400 | 422 => StatusDecision {
            client: ClientAction::ReturnError,
            provider: ProviderAction::Keep,
            reservation: ReservationAction::ReleaseRejected,
        },
        // 402 is what a zero-balance OpenRouter account returns for anything
        // paid.
        401 | 402 | 403 | 404 => StatusDecision {
            client: ClientAction::TryNextProvider,
            provider: ProviderAction::CloseUntilRemediated,
            reservation: ReservationAction::ReleaseRejected,
        },
        429 => StatusDecision {
            client: ClientAction::TryNextProvider,
            provider: ProviderAction::BackOff,
            reservation: ReservationAction::ReleaseRejected,
        },
        // Server errors, gateway timeouts, and anything not listed: generation
        // may have started.
        _ => StatusDecision {
            client: ClientAction::TryNextProvider,
            provider: ProviderAction::Keep,
            reservation: ReservationAction::HoldAsUnknown,
        },
    }
}

/// Law: exactly the listed refusals release the reservation. Nothing else
/// that was sent is given back.
pub proof fn exactly_the_listed_refusals_release(status: u16)
    ensures
        (decision_for(status).reservation is ReleaseRejected) == proves_unprocessed(status),
        (decision_for(status).reservation is Settle) == is_success(status),
        (decision_for(status).client is Relay) == is_success(status),
{
}

/// Law: what each status means. A success is relayed and settled. A malformed
/// request is returned to the client. A redirect is never followed: the
/// provider is closed, and the reservation held, since whoever answered may
/// have passed the request on. A failure of credentials, payment or endpoint
/// closes the provider and gives the reservation back, and a 429 backs off and
/// gives it back. Everything else may have started generation, and is held.
pub proof fn each_status_has_its_meaning(status: u16)
    ensures
        200 <= status < 300 ==> decision_for(status) == (StatusDecision {
            client: ClientAction::Relay,
            provider: ProviderAction::Keep,
            reservation: ReservationAction::Settle,
        }),
        300 <= status < 400 ==> decision_for(status) == (StatusDecision {
            client: ClientAction::TryNextProvider,
            provider: ProviderAction::CloseUntilRemediated,
            reservation: ReservationAction::HoldAsUnknown,
        }),
        status == 400 || status == 422 ==> decision_for(status) == (StatusDecision {
            client: ClientAction::ReturnError,
            provider: ProviderAction::Keep,
            reservation: ReservationAction::ReleaseRejected,
        }),
        401 <= status <= 404 ==> decision_for(status) == (StatusDecision {
            client: ClientAction::TryNextProvider,
            provider: ProviderAction::CloseUntilRemediated,
            reservation: ReservationAction::ReleaseRejected,
        }),
        status == 429 ==> decision_for(status) == (StatusDecision {
            client: ClientAction::TryNextProvider,
            provider: ProviderAction::BackOff,
            reservation: ReservationAction::ReleaseRejected,
        }),
        status < 200 || (404 < status && status != 422 && status != 429) ==> decision_for(status)
            == (StatusDecision {
            client: ClientAction::TryNextProvider,
            provider: ProviderAction::Keep,
            reservation: ReservationAction::HoldAsUnknown,
        }),
{
}

/// Law: only a malformed request is returned to the client.
pub proof fn only_a_malformed_request_is_returned(status: u16)
    ensures
        (decision_for(status).client is ReturnError) == (status == 400 || status == 422),
{
}

} // verus!
