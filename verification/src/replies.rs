//! What a client is answered.
//!
//! Every refusal has a shape chosen for how clients react to it. A request the
//! allowlist rejects is a 400, which Codex shows and stops on. "Nothing can
//! serve you" is a 429 carrying `usage_limit_reached`, which Codex does not
//! retry. A WebSocket upgrade is 426, which makes Codex fall back to HTTP
//! immediately rather than treating the endpoint as broken.
use vstd::prelude::*;
use vstd::string::*;

use crate::admission::{Catalog, EntryView, Refused, RefusedView};
use crate::dispatch::{Head, HeadView};
use crate::epoch::ClosedReason;
use crate::error_body::{
    invalid_request_body, invalid_request_view, openai_error_body, openai_error_view,
    usage_limit_reached_body, usage_limit_reached_view,
};
use crate::json::{
    items_view, lemma_array_view, lemma_object_view, members_view, Json, JsonView,
};
use crate::ledger::{Refusal, RefusalView};
use crate::liability::estimate_text;
use crate::openrouter_dispatch::{Sent, SentView};
use crate::rejection::{code_name, Rejection, RejectionView};
use crate::text::{decimal_text, push_decimal, push_quoted, push_signed, quoted_text, signed_text};
use crate::trust::{TrustVerdict, UnknownReason};
use crate::upstream::with_detail;

verus! {

/// Codex sends its whole conversation every turn, so the cap is generous; it
/// exists to stop an unbounded body, not to shape usage.
pub const MAX_BODY_BYTES: usize = 67_108_864;

pub const PROVIDER_HEADER: &'static str = "x-quotamiser-provider";

pub const MODEL_HEADER: &'static str = "x-quotamiser-model";

/// Who served a request: the provider, and the model that was used.
#[derive(Debug, PartialEq, Eq)]
pub struct Attribution {
    pub provider: &'static str,
    pub model: String,
}

pub struct AttributionView {
    pub provider: Seq<char>,
    pub model: Seq<char>,
}

impl View for Attribution {
    type V = AttributionView;

    open spec fn view(&self) -> AttributionView {
        AttributionView { provider: self.provider@, model: self.model@ }
    }
}

/// Served by OpenAI.
pub fn by_openai(model: &str) -> (attribution: Attribution)
    ensures
        attribution@ == (AttributionView { provider: "openai"@, model: model@ }),
{
    Attribution { provider: "openai", model: model.to_owned() }
}

/// Served by OpenRouter.
pub fn by_openrouter(model: &str) -> (attribution: Attribution)
    ensures
        attribution@ == (AttributionView { provider: "openrouter"@, model: model@ }),
{
    Attribution { provider: "openrouter", model: model.to_owned() }
}

/// The body of an answer.
#[derive(Debug, PartialEq, Eq)]
pub enum ReplyBody {
    Json(Json),
    /// A provider's answer, as it came.
    Raw(Vec<u8>),
}

pub enum ReplyBodyView {
    Json(JsonView),
    Raw(Seq<u8>),
}

impl View for ReplyBody {
    type V = ReplyBodyView;

    open spec fn view(&self) -> ReplyBodyView {
        match *self {
            ReplyBody::Json(value) => ReplyBodyView::Json(value@),
            ReplyBody::Raw(bytes) => ReplyBodyView::Raw(bytes@),
        }
    }
}

/// An answer that is not a stream.
#[derive(Debug, PartialEq, Eq)]
pub struct Reply {
    pub status: u16,
    pub body: ReplyBody,
    /// Seconds for the `Retry-After` header.
    pub retry_after: Option<u64>,
    pub attribution: Option<Attribution>,
}

pub struct ReplyView {
    pub status: u16,
    pub body: ReplyBodyView,
    pub retry_after: Option<u64>,
    pub attribution: Option<AttributionView>,
}

pub open spec fn attribution_view(attribution: Option<Attribution>) -> Option<AttributionView> {
    match attribution {
        Some(who) => Some(who@),
        None => None,
    }
}

impl View for Reply {
    type V = ReplyView;

    open spec fn view(&self) -> ReplyView {
        ReplyView {
            status: self.status,
            body: self.body@,
            retry_after: self.retry_after,
            attribution: attribution_view(self.attribution),
        }
    }
}

/// A plain answer with a JSON body.
pub open spec fn json_reply(status: u16, body: JsonView) -> ReplyView {
    ReplyView { status, body: ReplyBodyView::Json(body), retry_after: None, attribution: None }
}

fn with_json(status: u16, body: Json) -> (reply: Reply)
    ensures
        reply@ == json_reply(status, body@),
{
    Reply { status, body: ReplyBody::Json(body), retry_after: None, attribution: None }
}

/// A 429 the client should not retry until `resets_at`.
pub open spec fn unavailable_view(message: Seq<char>, resets_at: Option<i64>) -> ReplyView {
    json_reply(429, usage_limit_reached_view(message, resets_at))
}

/// A 429 the client should not retry until `resets_at`.
pub fn unavailable_until(message: &str, resets_at: Option<i64>) -> (reply: Reply)
    ensures
        reply@ == unavailable_view(message@, resets_at),
{
    with_json(429, usage_limit_reached_body(message, resets_at))
}

/// An OpenAI-shaped error.
pub open spec fn error_view(status: u16, message: Seq<char>) -> ReplyView {
    json_reply(status, openai_error_view(status, message))
}

/// An OpenAI-shaped error.
pub fn error_reply(status: u16, message: &str) -> (reply: Reply)
    ensures
        reply@ == error_view(status, message@),
{
    with_json(status, openai_error_body(status, message))
}

/// What a WebSocket upgrade is answered.
pub open spec fn upgrade_view() -> ReplyView {
    error_view(426, "QuotaMiser serves this endpoint over HTTP only."@)
}

/// What a WebSocket upgrade is answered.
pub fn upgrade_reply() -> (reply: Reply)
    ensures
        reply@ == upgrade_view(),
{
    error_reply(426, "QuotaMiser serves this endpoint over HTTP only.")
}

/// What a request outside the allowlist is answered.
pub open spec fn rejection_view(rejection: RejectionView) -> ReplyView {
    json_reply(
        400,
        invalid_request_view(rejection.message, rejection.param, code_name(rejection.code)),
    )
}

/// What a request outside the allowlist is answered.
pub fn rejection_reply(rejection: &Rejection) -> (reply: Reply)
    ensures
        reply@ == rejection_view(rejection@),
{
    with_json(400, rejection.error_body())
}

pub open spec fn timeless_view() -> ReplyView {
    unavailable_view(
        "QuotaMiser has no trusted reading of the provider's clock, so it cannot tell which day's quota this would spend."@,
        None,
    )
}

/// What is answered without trusted time.
pub fn timeless_reply() -> (reply: Reply)
    ensures
        reply@ == timeless_view(),
{
    unavailable_until(
        "QuotaMiser has no trusted reading of the provider's clock, so it cannot tell which day's quota this would spend.",
        None,
    )
}

// ---------------------------------------------------------------------------
// Refusals.

/// A time as the ledger's integers hold it: no later than the last they can.
pub open spec fn clipped_time(time: int) -> i64 {
    if time > i64::MAX {
        i64::MAX
    } else {
        time as i64
    }
}

/// When the day of a time ends.
pub open spec fn day_end(now: i64) -> i64 {
    clipped_time((now as int / 86_400 + 1) * 86_400)
}

fn end_of_day(now: i64) -> (end: i64)
    ensures
        end == day_end(now),
{
    let wide: i128 = now as i128;
    let days: i128 = if wide >= 0 {
        wide / 86_400
    } else {
        -((-wide - 1) / 86_400) - 1
    };
    let end: i128 = (days + 1) * 86_400;
    if end > i64::MAX as i128 {
        i64::MAX
    } else {
        end as i64
    }
}

/// Why a ledger cannot be trusted, by name.
pub open spec fn unknown_name(reason: UnknownReason) -> Seq<char> {
    match reason {
        UnknownReason::Uninitialized => "Uninitialized"@,
        UnknownReason::ExternalMissing => "ExternalMissing"@,
        UnknownReason::ExternalUnreadable => "ExternalUnreadable"@,
        UnknownReason::ExternalBehindLedger => "ExternalBehindLedger"@,
        UnknownReason::LedgerRolledBack => "LedgerRolledBack"@,
        UnknownReason::Inconsistent => "Inconsistent"@,
        UnknownReason::UncleanShutdown => "UncleanShutdown"@,
    }
}

fn name_of_unknown(reason: UnknownReason) -> (name: &'static str)
    ensures
        name@ == unknown_name(reason),
{
    match reason {
        UnknownReason::Uninitialized => "Uninitialized",
        UnknownReason::ExternalMissing => "ExternalMissing",
        UnknownReason::ExternalUnreadable => "ExternalUnreadable",
        UnknownReason::ExternalBehindLedger => "ExternalBehindLedger",
        UnknownReason::LedgerRolledBack => "LedgerRolledBack",
        UnknownReason::Inconsistent => "Inconsistent",
        UnknownReason::UncleanShutdown => "UncleanShutdown",
    }
}

/// Why nothing may be spent, by name.
pub open spec fn closed_name(reason: ClosedReason) -> Seq<char> {
    match reason {
        ClosedReason::NearBoundary => "NearBoundary"@,
        ClosedReason::NoTrustedTime => "NoTrustedTime"@,
        ClosedReason::ClockWentBackwards => "ClockWentBackwards"@,
    }
}

fn name_of_closed(reason: ClosedReason) -> (name: &'static str)
    ensures
        name@ == closed_name(reason),
{
    match reason {
        ClosedReason::NearBoundary => "NearBoundary",
        ClosedReason::NoTrustedTime => "NoTrustedTime",
        ClosedReason::ClockWentBackwards => "ClockWentBackwards",
    }
}

/// A refusal of the ledger, spelled out for an operator.
pub open spec fn refusal_text(refusal: RefusalView) -> Seq<char> {
    match refusal {
        RefusalView::Untrusted(TrustVerdict::Trusted) => "Untrusted(Trusted)"@,
        RefusalView::Untrusted(TrustVerdict::Unknown(reason)) => "Untrusted(Unknown("@
            + unknown_name(reason) + "))"@,
        RefusalView::Latched { scope, reason } => "Latched { scope: "@ + quoted_text(scope)
            + ", reason: "@ + quoted_text(reason) + " }"@,
        RefusalView::SafetyInputMissing(key) => "SafetyInputMissing("@ + quoted_text(key) + ")"@,
        RefusalView::SafetyInputExpired(key) => "SafetyInputExpired("@ + quoted_text(key) + ")"@,
        RefusalView::SafetyBudgetExhausted { key, remaining } =>
            "SafetyBudgetExhausted { key: "@ + quoted_text(key) + ", remaining: "@
            + signed_text(remaining as int) + " }"@,
        RefusalView::PoolNotOpen { pool_id, epoch } => "PoolNotOpen { pool_id: "@
            + quoted_text(pool_id) + ", epoch: "@ + signed_text(epoch as int) + " }"@,
        RefusalView::InsufficientQuota { remaining, liability } =>
            "InsufficientQuota { remaining: "@ + signed_text(remaining as int)
            + ", liability: "@ + signed_text(liability as int) + " }"@,
        RefusalView::TooManyInFlight { open } => "TooManyInFlight { open: "@ + decimal_text(
            open as nat,
        ) + " }"@,
    }
}

/// A refusal of the ledger, spelled out for an operator.
pub fn describe_refusal(refusal: &Refusal) -> (text: String)
    ensures
        text@ == refusal_text(refusal@),
{
    match refusal {
        Refusal::Untrusted(TrustVerdict::Trusted) => String::from_str("Untrusted(Trusted)"),
        Refusal::Untrusted(TrustVerdict::Unknown(reason)) => {
            let mut text = String::from_str("Untrusted(Unknown(");
            text.push_str(name_of_unknown(*reason));
            text.push_str("))");
            text
        },
        Refusal::Latched { scope, reason } => {
            let mut text = String::from_str("Latched { scope: ");
            push_quoted(&mut text, scope.as_str());
            text.push_str(", reason: ");
            push_quoted(&mut text, reason.as_str());
            text.push_str(" }");
            text
        },
        Refusal::SafetyInputMissing(key) => {
            let mut text = String::from_str("SafetyInputMissing(");
            push_quoted(&mut text, key.as_str());
            text.push_str(")");
            text
        },
        Refusal::SafetyInputExpired(key) => {
            let mut text = String::from_str("SafetyInputExpired(");
            push_quoted(&mut text, key.as_str());
            text.push_str(")");
            text
        },
        Refusal::SafetyBudgetExhausted { key, remaining } => {
            let mut text = String::from_str("SafetyBudgetExhausted { key: ");
            push_quoted(&mut text, key.as_str());
            text.push_str(", remaining: ");
            push_signed(&mut text, *remaining);
            text.push_str(" }");
            text
        },
        Refusal::PoolNotOpen { pool_id, epoch } => {
            let mut text = String::from_str("PoolNotOpen { pool_id: ");
            push_quoted(&mut text, pool_id.as_str());
            text.push_str(", epoch: ");
            push_signed(&mut text, *epoch);
            text.push_str(" }");
            text
        },
        Refusal::InsufficientQuota { remaining, liability } => {
            let mut text = String::from_str("InsufficientQuota { remaining: ");
            push_signed(&mut text, *remaining);
            text.push_str(", liability: ");
            push_signed(&mut text, *liability);
            text.push_str(" }");
            text
        },
        Refusal::TooManyInFlight { open } => {
            let mut text = String::from_str("TooManyInFlight { open: ");
            push_decimal(&mut text, *open as u128);
            text.push_str(" }");
            text
        },
    }
}

/// What a request that was not admitted is answered.
pub open spec fn refused_view(refused: RefusedView, now: i64) -> ReplyView {
    match refused {
        RefusedView::UnknownModel(model) => json_reply(
            400,
            invalid_request_view(
                "`"@ + model + "` is not a model QuotaMiser is configured to serve."@,
                Some("model"@),
                "model_not_configured"@,
            ),
        ),
        RefusedView::Ledger(RefusalView::InsufficientQuota { remaining, liability }) =>
            unavailable_view(
            "This request could consume up to "@ + signed_text(liability as int)
                + " tokens and only "@ + signed_text(remaining as int)
                + " remain in today's free grant. Nothing was sent."@,
            Some(day_end(now)),
        ),
        RefusedView::Ledger(RefusalView::PoolNotOpen { pool_id, epoch }) => unavailable_view(
            "Pool "@ + pool_id + " is not open for epoch "@ + signed_text(epoch as int) + "."@,
            Some(day_end(now)),
        ),
        RefusedView::Ledger(RefusalView::TooManyInFlight { open }) => unavailable_view(
            decimal_text(open as nat)
                + " earlier requests are still open, as many as there may be. Nothing was sent."@,
            None,
        ),
        RefusedView::WindowClosed(reason) => unavailable_view(
            "QuotaMiser is not spending quota right now ("@ + closed_name(reason)
                + "): the day boundary is too close to tell which day this would be charged to."@,
            Some(day_end(now)),
        ),
        RefusedView::RolloverDue { epoch } => unavailable_view(
            "The ledger is still opening epoch "@ + signed_text(epoch as int) + "."@,
            None,
        ),
        RefusedView::Ledger(refusal) => unavailable_view(
            "QuotaMiser is not admitting requests: "@ + refusal_text(refusal)
                + ". This needs an operator, not a retry."@,
            None,
        ),
        RefusedView::InputNotCounted(detail) => error_view(
            503,
            "The input could not be counted, so no upper bound on its cost exists: "@ + detail,
        ),
        RefusedView::Estimate(error) => error_view(503, estimate_text(error)),
        RefusedView::LedgerUnavailable(detail) => error_view(503, detail),
    }
}

/// What a request that was not admitted is answered.
pub fn refusal_response(refused: &Refused, now: i64) -> (reply: Reply)
    ensures
        reply@ == refused_view(refused@, now),
{
    match refused {
        Refused::UnknownModel(model) => {
            let mut text = String::from_str("`");
            text.push_str(model.as_str());
            text.push_str("` is not a model QuotaMiser is configured to serve.");
            with_json(
                400,
                invalid_request_body(text.as_str(), Some("model"), "model_not_configured"),
            )
        },
        Refused::Ledger(Refusal::InsufficientQuota { remaining, liability }) => {
            let mut text = String::from_str("This request could consume up to ");
            push_signed(&mut text, *liability);
            text.push_str(" tokens and only ");
            push_signed(&mut text, *remaining);
            text.push_str(" remain in today's free grant. Nothing was sent.");
            unavailable_until(text.as_str(), Some(end_of_day(now)))
        },
        Refused::Ledger(Refusal::PoolNotOpen { pool_id, epoch }) => {
            let mut text = String::from_str("Pool ");
            text.push_str(pool_id.as_str());
            text.push_str(" is not open for epoch ");
            push_signed(&mut text, *epoch);
            text.push_str(".");
            unavailable_until(text.as_str(), Some(end_of_day(now)))
        },
        Refused::Ledger(Refusal::TooManyInFlight { open }) => {
            let mut text = String::new();
            push_decimal(&mut text, *open as u128);
            text.push_str(
                " earlier requests are still open, as many as there may be. Nothing was sent.",
            );
            unavailable_until(text.as_str(), None)
        },
        Refused::WindowClosed(reason) => {
            let mut text = String::from_str("QuotaMiser is not spending quota right now (");
            text.push_str(name_of_closed(*reason));
            text.push_str(
                "): the day boundary is too close to tell which day this would be charged to.",
            );
            unavailable_until(text.as_str(), Some(end_of_day(now)))
        },
        Refused::RolloverDue { epoch } => {
            let mut text = String::from_str("The ledger is still opening epoch ");
            push_signed(&mut text, *epoch);
            text.push_str(".");
            unavailable_until(text.as_str(), None)
        },
        Refused::Ledger(refusal) => {
            let mut text = String::from_str("QuotaMiser is not admitting requests: ");
            text.push_str(describe_refusal(refusal).as_str());
            text.push_str(". This needs an operator, not a retry.");
            unavailable_until(text.as_str(), None)
        },
        Refused::InputNotCounted(detail) => {
            let text = with_detail(
                "The input could not be counted, so no upper bound on its cost exists: ",
                detail,
            );
            error_reply(503, text.as_str())
        },
        Refused::Estimate(error) => error_reply(503, error.message()),
        Refused::LedgerUnavailable(detail) => error_reply(503, detail.as_str()),
    }
}

// ---------------------------------------------------------------------------
// Providers.

/// The whole seconds of a wait, and at least one.
pub open spec fn wait_seconds(nanos: u64) -> u64 {
    if nanos < 2_000_000_000 {
        1
    } else {
        nanos / 1_000_000_000
    }
}

/// What is answered while a provider is held back.
pub open spec fn held_back_view(nanos: u64, now: i64) -> ReplyView {
    ReplyView {
        retry_after: Some(wait_seconds(nanos)),
        ..unavailable_view(
            "The provider is not accepting requests right now. Nothing was sent, and no quota was spent."@,
            Some(clipped_time(now + wait_seconds(nanos))),
        )
    }
}

/// What is answered while a provider is held back.
pub fn held_back_reply(nanos: u64, now: i64) -> (reply: Reply)
    ensures
        reply@ == held_back_view(nanos, now),
{
    let seconds: u64 = if nanos < 2_000_000_000 {
        1
    } else {
        nanos / 1_000_000_000
    };
    let until: i128 = now as i128 + seconds as i128;
    let resets_at: i64 = if until > i64::MAX as i128 {
        i64::MAX
    } else {
        until as i64
    };
    let plain = unavailable_until(
        "The provider is not accepting requests right now. Nothing was sent, and no quota was spent.",
        Some(resets_at),
    );
    Reply {
        status: plain.status,
        body: plain.body,
        retry_after: Some(seconds),
        attribution: plain.attribution,
    }
}

/// A provider's own answer, passed on.
pub open spec fn passed_on(status: u16, body: Seq<u8>, who: AttributionView) -> ReplyView {
    ReplyView {
        status,
        body: ReplyBodyView::Raw(body),
        retry_after: None,
        attribution: Some(who),
    }
}

fn pass_on(status: u16, body: Vec<u8>, who: Attribution) -> (reply: Reply)
    ensures
        reply@ == passed_on(status, body@, who@),
{
    Reply { status, body: ReplyBody::Raw(body), retry_after: None, attribution: Some(who) }
}

/// What a dispatch that is not a stream is answered.
pub open spec fn head_view(head: HeadView, model: Seq<char>, now: i64) -> ReplyView {
    match head {
        HeadView::Refused { status, decision: _, body } => passed_on(
            status,
            body,
            AttributionView { provider: "openai"@, model },
        ),
        HeadView::RateLimited { retry_after } => held_back_view(retry_after, now),
        HeadView::CoolingDown { retry_after } => held_back_view(retry_after, now),
        HeadView::NotSent(reason) => error_view(503, reason),
        HeadView::OutcomeUnknown(reason) => error_view(503, reason),
    }
}

/// What a dispatch that is not a stream is answered. Where upstream refused
/// the request itself, the client sees its answer.
pub fn head_response(head: Head, model: &str, now: i64) -> (reply: Reply)
    ensures
        reply@ == head_view(head@, model@, now),
{
    match head {
        Head::Refused { status, decision: _, body } => pass_on(status, body, by_openai(model)),
        Head::RateLimited { retry_after } => held_back_reply(retry_after, now),
        Head::CoolingDown { retry_after } => held_back_reply(retry_after, now),
        Head::NotSent(reason) => error_reply(503, reason.as_str()),
        Head::OutcomeUnknown(reason) => error_reply(503, reason.as_str()),
    }
}

/// What a request that was routed to OpenRouter is answered, where that is not
/// a stream. `refusal` is what OpenAI's refusal was to be answered with: it
/// stands where the route has no requests left.
pub open spec fn sent_view(
    sent: SentView,
    model: Seq<char>,
    refusal: ReplyView,
    now: i64,
) -> ReplyView {
    match sent {
        SentView::Refused { status, body } => passed_on(
            status,
            body,
            AttributionView { provider: "openrouter"@, model },
        ),
        SentView::Exhausted { .. } | SentView::Closed => refusal,
        SentView::HeldBack { retry_after } => held_back_view(retry_after, now),
        SentView::Failed(detail) => error_view(503, detail),
    }
}

/// What a request that was routed to OpenRouter is answered, where that is not
/// a stream.
pub fn sent_response(sent: Sent, model: &str, refusal: Reply, now: i64) -> (reply: Reply)
    ensures
        reply@ == sent_view(sent@, model@, refusal@, now),
{
    match sent {
        Sent::Refused { status, body } => pass_on(status, body, by_openrouter(model)),
        Sent::Exhausted { .. } | Sent::Closed => refusal,
        Sent::HeldBack { retry_after } => held_back_reply(retry_after, now),
        Sent::Failed(detail) => error_reply(503, detail.as_str()),
    }
}

// ---------------------------------------------------------------------------
// The models.

/// One entry of the listing.
pub open spec fn model_view(name: Seq<char>) -> JsonView {
    JsonView::Object(
        seq![
            ("id"@, JsonView::Text(name)),
            ("object"@, JsonView::Text("model"@)),
            ("owned_by"@, JsonView::Text("openai"@)),
        ],
    )
}

/// The listing of the configured models.
pub open spec fn listing_view(catalog: Seq<(Seq<char>, EntryView)>) -> JsonView {
    JsonView::Object(
        seq![
            ("object"@, JsonView::Text("list"@)),
            (
                "data"@,
                JsonView::Array(Seq::new(catalog.len(), |i: int| model_view(catalog[i].0))),
            ),
        ],
    )
}

fn model_entry(name: &str) -> (entry: Json)
    ensures
        entry@ == model_view(name@),
{
    let mut fields: Vec<(String, Json)> = Vec::new();
    fields.push((String::from_str("id"), Json::text(name)));
    fields.push((String::from_str("object"), Json::text("model")));
    fields.push((String::from_str("owned_by"), Json::text("openai")));
    proof {
        assert(members_view(fields@) =~= seq![
            ("id"@, JsonView::Text(name@)),
            ("object"@, JsonView::Text("model"@)),
            ("owned_by"@, JsonView::Text("openai"@)),
        ]);
        lemma_object_view(fields);
    }
    Json::Object(fields)
}

/// The listing of the configured models.
pub fn list_models(catalog: &Catalog) -> (listing: Json)
    ensures
        listing@ == listing_view(catalog@),
{
    let mut data: Vec<Json> = Vec::new();
    let mut i: usize = 0;
    while i < catalog.models.len()
        invariant
            i <= catalog.models@.len(),
            data@.len() == i,
            forall|k: int| 0 <= k < i ==> (#[trigger] data@[k])@ == model_view(catalog@[k].0),
        decreases catalog.models.len() - i,
    {
        assert(catalog@[i as int].0 == catalog.models@[i as int].0@);
        data.push(model_entry(catalog.models[i].0.as_str()));
        i = i + 1;
    }
    let ghost entries = Seq::new(catalog@.len(), |k: int| model_view(catalog@[k].0));
    proof {
        assert(items_view(data@) =~= entries);
        lemma_array_view(data);
    }
    let mut fields: Vec<(String, Json)> = Vec::new();
    fields.push((String::from_str("object"), Json::text("list")));
    fields.push((String::from_str("data"), Json::Array(data)));
    proof {
        assert(members_view(fields@) =~= seq![
            ("object"@, JsonView::Text("list"@)),
            ("data"@, JsonView::Array(entries)),
        ]);
        lemma_object_view(fields);
    }
    Json::Object(fields)
}

// ---------------------------------------------------------------------------
// Laws.

/// Law: a request that was not admitted is answered 400, 429 or 503, and 400
/// only where its model is not configured.
pub proof fn refusals_have_three_statuses(refused: RefusedView, now: i64)
    ensures
        refused_view(refused, now).status == 400 || refused_view(refused, now).status == 429
            || refused_view(refused, now).status == 503,
        refused_view(refused, now).status == 400 <==> refused is UnknownModel,
        refused_view(refused, now).attribution is None,
{
}

/// Law: every 429 that comes from here is marked as a usage limit, which
/// Codex does not retry.
pub proof fn every_429_is_a_usage_limit(refused: RefusedView, now: i64)
    ensures
        refused_view(refused, now).status == 429 ==> exists|message: Seq<char>, at: Option<i64>|
            refused_view(refused, now) == unavailable_view(message, at),
{
    if refused_view(refused, now).status == 429 {
        let reply = refused_view(refused, now);
        match refused {
            RefusedView::Ledger(RefusalView::InsufficientQuota { remaining, liability }) => {
                let text = "This request could consume up to "@ + signed_text(liability as int)
                    + " tokens and only "@ + signed_text(remaining as int)
                    + " remain in today's free grant. Nothing was sent."@;
                assert(reply == unavailable_view(text, Some(day_end(now))));
            },
            RefusedView::Ledger(RefusalView::PoolNotOpen { pool_id, epoch }) => {
                let text = "Pool "@ + pool_id + " is not open for epoch "@ + signed_text(
                    epoch as int,
                ) + "."@;
                assert(reply == unavailable_view(text, Some(day_end(now))));
            },
            RefusedView::Ledger(RefusalView::TooManyInFlight { open }) => {
                let text = decimal_text(open as nat)
                    + " earlier requests are still open, as many as there may be. Nothing was sent."@;
                assert(reply == unavailable_view(text, None));
            },
            RefusedView::WindowClosed(reason) => {
                let text = "QuotaMiser is not spending quota right now ("@ + closed_name(reason)
                    + "): the day boundary is too close to tell which day this would be charged to."@;
                assert(reply == unavailable_view(text, Some(day_end(now))));
            },
            RefusedView::RolloverDue { epoch } => {
                let text = "The ledger is still opening epoch "@ + signed_text(epoch as int) + "."@;
                assert(reply == unavailable_view(text, None));
            },
            RefusedView::Ledger(refusal) => {
                let text = "QuotaMiser is not admitting requests: "@ + refusal_text(refusal)
                    + ". This needs an operator, not a retry."@;
                assert(reply == unavailable_view(text, None));
            },
            _ => {},
        }
    }
}

} // verus!
