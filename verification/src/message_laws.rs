//! What messages say: the details of an error stand in its message, each where
//! it belongs.
use vstd::prelude::*;

use crate::admission::RefusedView;
use crate::clock::{clock_text, ClockError};
use crate::config::{config_text, ConfigErrorView};
use crate::epoch::policy_text;
use crate::error::{error_text, state_label, ErrorView};
use crate::error_body::error_fields;
use crate::exchange_laws::{
    an_error_has_the_type_of_its_status, an_unavailable_reply_says_so, error_part,
    lemma_error_parts,
};
use crate::json::JsonView;
use crate::ledger::RefusalView;
use crate::liability::estimate_text;
use crate::openrouter::{openrouter_text, OpenRouterError};
use crate::replies::{closed_name, day_end, refusal_text, refused_view, unknown_name};
use crate::runtime::{startup_text, StartupErrorView};
use crate::state::State;
use crate::text::{decimal_text, quoted_char, quoted_chars, quoted_text, signed_text};
use crate::trust::TrustVerdict;
use crate::upstream::{upstream_text, UpstreamError};
use crate::usage_api::{usage_text, UsageApiError};

verus! {

/// A text ends with another.
pub open spec fn ends_with(text: Seq<char>, end: Seq<char>) -> bool {
    end.is_suffix_of(text)
}

/// A text begins with another.
pub open spec fn starts_with(text: Seq<char>, start: Seq<char>) -> bool {
    start.is_prefix_of(text)
}

proof fn lemma_ends(head: Seq<char>, tail: Seq<char>)
    ensures
        ends_with(head + tail, tail),
        starts_with(head + tail, head),
{
    assert((head + tail).subrange(head.len() as int, (head + tail).len() as int) =~= tail);
}

/// Law: an error of the ledger names what it is about: the reservation, the
/// state it is in and then the one it was to reach, the scope that is closed
/// and then why.
pub proof fn a_ledger_error_names_what_it_is_about(error: ErrorView)
    ensures
        ({
            let text = error_text(error);
            match error {
                ErrorView::StorageContract(detail) => ends_with(text, detail),
                ErrorView::Integrity(detail) => ends_with(text, detail),
                ErrorView::NotFound(id) => ends_with(text, signed_text(id as int) + " not found"@),
                ErrorView::IllegalTransition { root_id, from, to } => ends_with(
                    text,
                    signed_text(root_id as int) + ": "@ + state_label(from) + " does not allow "@
                        + state_label(to),
                ),
                ErrorView::ProviderClosed { scope, reason } => ends_with(
                    text,
                    "("@ + scope + "): "@ + reason,
                ),
                ErrorView::TooManyInFlight { open } => starts_with(
                    text,
                    decimal_text(open as nat) + " dispatches"@,
                ),
                ErrorView::BodyMismatch(root_id) => ends_with(
                    text,
                    signed_text(root_id as int) + " was made for"@,
                ),
                _ => true,
            }
        }),
{
    let text = error_text(error);
    match error {
        ErrorView::StorageContract(detail) => {
            lemma_ends("storage contract not met: "@, detail);
        },
        ErrorView::Integrity(detail) => {
            lemma_ends("integrity violation: "@, detail);
        },
        ErrorView::NotFound(id) => {
            let tail = signed_text(id as int) + " not found"@;
            lemma_ends("reservation "@, tail);
            assert(text =~= "reservation "@ + tail);
        },
        ErrorView::IllegalTransition { root_id, from, to } => {
            let tail = signed_text(root_id as int) + ": "@ + state_label(from)
                + " does not allow "@ + state_label(to);
            lemma_ends("illegal transition for reservation group "@, tail);
            assert(text =~= "illegal transition for reservation group "@ + tail);
        },
        ErrorView::ProviderClosed { scope, reason } => {
            reveal_strlit("(");
            reveal_strlit("the provider is closed (");
            let before = "the provider is closed "@;
            reveal_strlit("the provider is closed ");
            let tail = "("@ + scope + "): "@ + reason;
            assert("the provider is closed ("@ =~= before + "("@);
            lemma_ends(before, tail);
            assert(text =~= before + tail);
        },
        ErrorView::TooManyInFlight { open } => {
            reveal_strlit(" dispatches");
            reveal_strlit(" are still open");
            reveal_strlit(" dispatches are still open");
            let after = " are still open"@;
            let head = decimal_text(open as nat) + " dispatches"@;
            assert(" dispatches are still open"@ =~= " dispatches"@ + after);
            lemma_ends(head, after);
            assert(text =~= head + after);
        },
        ErrorView::BodyMismatch(root_id) => {
            let tail = signed_text(root_id as int) + " was made for"@;
            lemma_ends("the body is not the one reservation group "@, tail);
            assert(text =~= "the body is not the one reservation group "@ + tail);
        },
        _ => {},
    }
}

/// Law: a state is told from every other by its label.
pub proof fn a_label_tells_its_state(a: State, b: State)
    requires
        state_label(a) == state_label(b),
    ensures
        a == b,
{
    reveal_strlit("Reserved");
    reveal_strlit("Dispatching");
    reveal_strlit("DispatchedWithId");
    reveal_strlit("DispatchedIdUnknown");
    reveal_strlit("Settled");
    reveal_strlit("ConsumedUnrecoverable");
    reveal_strlit("ReleasedUnsent");
    reveal_strlit("RejectedBeforeProcessing");
    assert("Reserved"@.len() == 8);
    assert("Dispatching"@.len() == 11);
    assert("DispatchedWithId"@.len() == 16);
    assert("DispatchedIdUnknown"@.len() == 19);
    assert("Settled"@.len() == 7);
    assert("ConsumedUnrecoverable"@.len() == 21);
    assert("ReleasedUnsent"@.len() == 14);
    assert("RejectedBeforeProcessing"@.len() == 24);
}

/// Law: a refusal that is spelled out names what it is about: the scope and
/// then why it is latched, the input, and then what it has left, the pool and
/// then its day, what remains and then what was asked.
pub proof fn a_refusal_spells_out_what_it_is_about(refusal: RefusalView)
    ensures
        ({
            let text = refusal_text(refusal);
            match refusal {
                RefusalView::Untrusted(TrustVerdict::Unknown(reason)) => ends_with(
                    text,
                    unknown_name(reason) + "))"@,
                ),
                RefusalView::Latched { scope, reason } => ends_with(
                    text,
                    "scope: "@ + quoted_text(scope) + ", reason: "@ + quoted_text(reason) + " }"@,
                ),
                RefusalView::SafetyInputMissing(key) => text == "SafetyInputMissing("@
                    + quoted_text(key) + ")"@,
                RefusalView::SafetyInputExpired(key) => text == "SafetyInputExpired("@
                    + quoted_text(key) + ")"@,
                RefusalView::SafetyBudgetExhausted { key, remaining } => ends_with(
                    text,
                    "key: "@ + quoted_text(key) + ", remaining: "@ + signed_text(remaining as int)
                        + " }"@,
                ),
                RefusalView::PoolNotOpen { pool_id, epoch } => ends_with(
                    text,
                    "pool_id: "@ + quoted_text(pool_id) + ", epoch: "@ + signed_text(epoch as int)
                        + " }"@,
                ),
                RefusalView::InsufficientQuota { remaining, liability } => ends_with(
                    text,
                    "remaining: "@ + signed_text(remaining as int) + ", liability: "@
                        + signed_text(liability as int) + " }"@,
                ),
                RefusalView::TooManyInFlight { open } => ends_with(
                    text,
                    "open: "@ + decimal_text(open as nat) + " }"@,
                ),
                _ => true,
            }
        }),
{
    let text = refusal_text(refusal);
    match refusal {
        RefusalView::Untrusted(TrustVerdict::Unknown(reason)) => {
            let tail = unknown_name(reason) + "))"@;
            lemma_ends("Untrusted(Unknown("@, tail);
            assert(text =~= "Untrusted(Unknown("@ + tail);
        },
        RefusalView::Latched { scope, reason } => {
            reveal_strlit("Latched { scope: ");
            reveal_strlit("Latched { ");
            reveal_strlit("scope: ");
            let tail = "scope: "@ + quoted_text(scope) + ", reason: "@ + quoted_text(reason)
                + " }"@;
            assert("Latched { scope: "@ =~= "Latched { "@ + "scope: "@);
            lemma_ends("Latched { "@, tail);
            assert(text =~= "Latched { "@ + tail);
        },
        RefusalView::SafetyBudgetExhausted { key, remaining } => {
            reveal_strlit("SafetyBudgetExhausted { key: ");
            reveal_strlit("SafetyBudgetExhausted { ");
            reveal_strlit("key: ");
            let tail = "key: "@ + quoted_text(key) + ", remaining: "@ + signed_text(
                remaining as int,
            ) + " }"@;
            assert("SafetyBudgetExhausted { key: "@ =~= "SafetyBudgetExhausted { "@ + "key: "@);
            lemma_ends("SafetyBudgetExhausted { "@, tail);
            assert(text =~= "SafetyBudgetExhausted { "@ + tail);
        },
        RefusalView::PoolNotOpen { pool_id, epoch } => {
            reveal_strlit("PoolNotOpen { pool_id: ");
            reveal_strlit("PoolNotOpen { ");
            reveal_strlit("pool_id: ");
            let tail = "pool_id: "@ + quoted_text(pool_id) + ", epoch: "@ + signed_text(
                epoch as int,
            ) + " }"@;
            assert("PoolNotOpen { pool_id: "@ =~= "PoolNotOpen { "@ + "pool_id: "@);
            lemma_ends("PoolNotOpen { "@, tail);
            assert(text =~= "PoolNotOpen { "@ + tail);
        },
        RefusalView::InsufficientQuota { remaining, liability } => {
            reveal_strlit("InsufficientQuota { remaining: ");
            reveal_strlit("InsufficientQuota { ");
            reveal_strlit("remaining: ");
            let tail = "remaining: "@ + signed_text(remaining as int) + ", liability: "@
                + signed_text(liability as int) + " }"@;
            assert("InsufficientQuota { remaining: "@ =~= "InsufficientQuota { "@ + "remaining: "@);
            lemma_ends("InsufficientQuota { "@, tail);
            assert(text =~= "InsufficientQuota { "@ + tail);
        },
        RefusalView::TooManyInFlight { open } => {
            reveal_strlit("TooManyInFlight { open: ");
            reveal_strlit("TooManyInFlight { ");
            reveal_strlit("open: ");
            let tail = "open: "@ + decimal_text(open as nat) + " }"@;
            assert("TooManyInFlight { open: "@ =~= "TooManyInFlight { "@ + "open: "@);
            lemma_ends("TooManyInFlight { "@, tail);
            assert(text =~= "TooManyInFlight { "@ + tail);
        },
        _ => {},
    }
}

/// Law: a configuration error names what is wrong: the variable, the address,
/// the model and then the pool it names.
pub proof fn a_configuration_error_names_what_is_wrong(error: ConfigErrorView)
    ensures
        ({
            let text = config_text(error);
            match error {
                ConfigErrorView::MissingCredential(name) => starts_with(
                    text,
                    "the environment variable "@ + name,
                ),
                ConfigErrorView::BadBindAddress(address) => ends_with(text, address),
                ConfigErrorView::UnknownPool { model, pool } => starts_with(
                    text,
                    "model "@ + model + " names pool "@ + pool,
                ),
                ConfigErrorView::ZeroOutput(model) => starts_with(text, "model "@ + model),
                ConfigErrorView::DuplicatePool(pool) => starts_with(text, "pool "@ + pool),
                ConfigErrorView::DuplicateModel(model) => starts_with(text, "model "@ + model),
                ConfigErrorView::PoolNameReserved(pool) => starts_with(text, "pool "@ + pool),
                ConfigErrorView::Clock(error) => ends_with(text, policy_text(error)),
                _ => true,
            }
        }),
{
    match error {
        ConfigErrorView::BadBindAddress(address) => {
            lemma_ends("`bind` is not an address: "@, address);
        },
        ConfigErrorView::Clock(error) => {
            lemma_ends("the clock policy is not acceptable: "@, policy_text(error));
        },
        ConfigErrorView::UnknownPool { model, pool } => {
            lemma_ends(
                "model "@ + model + " names pool "@ + pool,
                ", which is not configured"@,
            );
        },
        _ => {},
    }
}

/// Law: an error met outside ends with what was met: the address, the detail,
/// or the status and then the body.
pub proof fn an_outside_error_ends_with_what_was_met(
    upstream: UpstreamError,
    usage: UsageApiError,
    openrouter: OpenRouterError,
    startup: StartupErrorView,
    clock: ClockError,
)
    ensures
        match upstream {
            UpstreamError::InvalidBaseUrl(url) => ends_with(upstream_text(upstream), url@),
            UpstreamError::InsecureBaseUrl(url) => ends_with(upstream_text(upstream), url@),
            UpstreamError::InvalidResponseId(id) => ends_with(
                upstream_text(upstream),
                quoted_text(id@),
            ),
            UpstreamError::Build(detail) => ends_with(upstream_text(upstream), detail@),
            UpstreamError::Transport(detail) => ends_with(upstream_text(upstream), detail@),
        },
        match usage {
            UsageApiError::InvalidBaseUrl(url) => ends_with(usage_text(usage), url@),
            UsageApiError::InsecureBaseUrl(url) => ends_with(usage_text(usage), url@),
            UsageApiError::Build(detail) => ends_with(usage_text(usage), detail@),
            UsageApiError::Transport(detail) => ends_with(usage_text(usage), detail@),
            UsageApiError::Status { status, body } => ends_with(
                usage_text(usage),
                decimal_text(status as nat) + ": "@ + body@,
            ),
            _ => true,
        },
        match openrouter {
            OpenRouterError::InvalidBaseUrl(url) => ends_with(openrouter_text(openrouter), url@),
            OpenRouterError::InsecureBaseUrl(url) => ends_with(openrouter_text(openrouter), url@),
            OpenRouterError::Build(detail) => ends_with(openrouter_text(openrouter), detail@),
            OpenRouterError::Transport(detail) => ends_with(openrouter_text(openrouter), detail@),
            OpenRouterError::Status { status, body } => ends_with(
                openrouter_text(openrouter),
                decimal_text(status as nat) + ": "@ + body@,
            ),
            _ => true,
        },
        match startup {
            StartupErrorView::Upstream(detail) => ends_with(startup_text(startup), detail),
            StartupErrorView::Usage(detail) => ends_with(startup_text(startup), detail),
            StartupErrorView::Ledger(detail) => ends_with(startup_text(startup), detail),
            StartupErrorView::LedgerAccess(detail) => ends_with(startup_text(startup), detail),
            StartupErrorView::NoTrustedTime(detail) => ends_with(
                startup_text(startup),
                detail + ")"@,
            ),
            StartupErrorView::Recovery(detail) => ends_with(startup_text(startup), detail),
        },
        clock matches ClockError::Status(status) ==> ends_with(
            clock_text(clock),
            decimal_text(status as nat),
        ),
{
    if let UsageApiError::Status { status, body } = usage {
        let tail = decimal_text(status as nat) + ": "@ + body@;
        lemma_ends("the usage API answered with status "@, tail);
        assert(usage_text(usage) =~= "the usage API answered with status "@ + tail);
    }
    if let OpenRouterError::Status { status, body } = openrouter {
        let tail = decimal_text(status as nat) + ": "@ + body@;
        lemma_ends("OpenRouter answered with status "@, tail);
        assert(openrouter_text(openrouter) =~= "OpenRouter answered with status "@ + tail);
    }
    if let StartupErrorView::NoTrustedTime(detail) = startup {
        let head =
            "no trusted time: the provider's clock could not be read, and the local clock is not trusted to choose the day ("@;
        lemma_ends(head, detail + ")"@);
        assert(startup_text(startup) =~= head + (detail + ")"@));
    }
}

/// Law: a text is quoted character by character. A character that is neither
/// a quote nor a backslash nor a control stands for itself, and every other is
/// escaped by a backslash.
pub proof fn a_text_is_quoted_by_its_characters(a: Seq<char>, b: Seq<char>, c: char)
    ensures
        quoted_chars(a + b) == quoted_chars(a) + quoted_chars(b),
        quoted_chars(seq![c]) == quoted_char(c),
        quoted_text(a) == seq!['"'] + quoted_chars(a) + seq!['"'],
        c != '"' && c != '\\' && 32 <= c as u32 && c as u32 != 127 ==> quoted_char(c) == seq![c],
        c == '"' || c == '\\' || (c as u32) < 32 || c as u32 == 127 ==> quoted_char(c).len() >= 2
            && quoted_char(c)[0] == '\\',
        c == '"' || c == '\\' ==> quoted_char(c) == seq!['\\', c],
    decreases b.len(),
{
    if b.len() > 0 {
        a_text_is_quoted_by_its_characters(a, b.drop_last(), c);
        assert((a + b).drop_last() =~= a + b.drop_last());
        assert((a + b).last() == b.last());
        assert(quoted_chars(a + b) =~= quoted_chars(a) + quoted_chars(b));
    } else {
        assert(a + b =~= a);
        assert(quoted_chars(a) + quoted_chars(b) =~= quoted_chars(a));
    }
    let one = seq![c];
    assert(one.drop_last() =~= Seq::empty());
    assert(one.last() == c);
    reveal_with_fuel(quoted_chars, 2);
    assert(quoted_chars(one) =~= quoted_char(c));
}

/// Law: a client that is refused is told what stands in the way: how much its
/// request could consume and then how much is left, the pool and then its day,
/// how many requests are open, and else what the ledger or the counter said.
pub proof fn a_client_is_told_what_stands_in_the_way(refused: RefusedView, now: i64)
    ensures
        error_part(refused_view(refused, now), "message"@) matches Some(JsonView::Text(text)) && (
        match refused {
            RefusedView::UnknownModel(model) => starts_with(text, "`"@ + model + "`"@),
            RefusedView::Ledger(RefusalView::InsufficientQuota { remaining, liability }) =>
                starts_with(text, "This request could consume up to "@ + signed_text(
                liability as int,
            ) + " tokens and only "@ + signed_text(remaining as int)),
            RefusedView::Ledger(RefusalView::PoolNotOpen { pool_id, epoch }) => starts_with(
                text,
                "Pool "@ + pool_id + " is not open for epoch "@ + signed_text(epoch as int),
            ),
            RefusedView::Ledger(RefusalView::TooManyInFlight { open }) => starts_with(
                text,
                decimal_text(open as nat),
            ),
            RefusedView::Ledger(refusal) => starts_with(
                text,
                "QuotaMiser is not admitting requests: "@ + refusal_text(refusal),
            ),
            RefusedView::WindowClosed(reason) => starts_with(
                text,
                "QuotaMiser is not spending quota right now ("@ + closed_name(reason),
            ),
            RefusedView::RolloverDue { epoch } => starts_with(
                text,
                "The ledger is still opening epoch "@ + signed_text(epoch as int),
            ),
            RefusedView::InputNotCounted(detail) => ends_with(text, detail),
            RefusedView::Estimate(error) => text == estimate_text(error),
            RefusedView::LedgerUnavailable(detail) => text == detail,
        }),
{
    match refused {
        RefusedView::UnknownModel(model) => {
            reveal_strlit("`");
            reveal_strlit("` is not a model QuotaMiser is configured to serve.");
            reveal_strlit(" is not a model QuotaMiser is configured to serve.");
            let after = " is not a model QuotaMiser is configured to serve."@;
            let message = "`"@ + model + "` is not a model QuotaMiser is configured to serve."@;
            assert("` is not a model QuotaMiser is configured to serve."@ =~= "`"@ + after);
            assert(message =~= "`"@ + model + "`"@ + after);
            let code = JsonView::Text("model_not_configured"@);
            let param = JsonView::Text("model"@);
            let base = error_fields(message, "invalid_request_error"@, param, code);
            lemma_error_parts(message, "invalid_request_error"@, param, code, Seq::empty());
            assert(base + Seq::<(Seq<char>, JsonView)>::empty() =~= base);
        },
        RefusedView::Ledger(RefusalView::InsufficientQuota { remaining, liability }) => {
            let message = "This request could consume up to "@ + signed_text(liability as int)
                + " tokens and only "@ + signed_text(remaining as int)
                + " remain in today's free grant. Nothing was sent."@;
            an_unavailable_reply_says_so(message, Some(day_end(now)));
        },
        RefusedView::Ledger(RefusalView::PoolNotOpen { pool_id, epoch }) => {
            let message = "Pool "@ + pool_id + " is not open for epoch "@ + signed_text(
                epoch as int,
            ) + "."@;
            an_unavailable_reply_says_so(message, Some(day_end(now)));
        },
        RefusedView::Ledger(RefusalView::TooManyInFlight { open }) => {
            let message = decimal_text(open as nat)
                + " earlier requests are still open, as many as there may be. Nothing was sent."@;
            an_unavailable_reply_says_so(message, None);
        },
        RefusedView::Ledger(refusal) => {
            let message = "QuotaMiser is not admitting requests: "@ + refusal_text(refusal)
                + ". This needs an operator, not a retry."@;
            an_unavailable_reply_says_so(message, None);
        },
        RefusedView::WindowClosed(reason) => {
            let message = "QuotaMiser is not spending quota right now ("@ + closed_name(reason)
                + "): the day boundary is too close to tell which day this would be charged to."@;
            an_unavailable_reply_says_so(message, Some(day_end(now)));
        },
        RefusedView::RolloverDue { epoch } => {
            let message = "The ledger is still opening epoch "@ + signed_text(epoch as int) + "."@;
            an_unavailable_reply_says_so(message, None);
        },
        RefusedView::InputNotCounted(detail) => {
            let head =
                "The input could not be counted, so no upper bound on its cost exists: "@;
            lemma_ends(head, detail);
            an_error_has_the_type_of_its_status(503, head + detail);
        },
        RefusedView::Estimate(error) => {
            an_error_has_the_type_of_its_status(503, estimate_text(error));
        },
        RefusedView::LedgerUnavailable(detail) => {
            an_error_has_the_type_of_its_status(503, detail);
        },
    }
}

} // verus!
