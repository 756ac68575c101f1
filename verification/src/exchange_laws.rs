//! What holds of every exchange with a client: what is reserved for it, where it
//! is sent, and what it is answered.
use vstd::prelude::*;
use vstd::utf8::*;

use crate::admission::{
    count_in, counted_step, counter_answer, decision_on, entry_of, first_step, proposal_of,
    CountingView, DecisionView, EntryView, PolicyView, RefusedView, StepView,
};
use crate::bodies::{count_bodies, flat_of, openai_fields, openrouter_fields, structured};
use crate::codec::json_bytes;
use crate::config::RouteModelView;
use crate::dispatch::HeadView;
use crate::epoch::Window;
use crate::error_body::{error_fields, error_object, integer_or_null, text_or_null};
use crate::json::{json_get, lemma_first_member, JsonView, NumberView};
use crate::ledger::{AdmissionView, RefusalView, ReservationId};
use crate::liability::EstimateError;
use crate::openrouter::covers;
use crate::openrouter_dispatch::SentView;
use crate::rejection::{RejectionCode, RejectionView};
use crate::replies::{
    day_end, error_view, head_view, held_back_view, listing_view, model_view, refused_view,
    rejection_view, sent_view, timeless_view, unavailable_view, upgrade_view, AttributionView,
    ReplyBodyView, ReplyView,
};
use crate::request::{parsed_request, RequestView};
use crate::server::{
    exchange_step, first_covering, on_refused, ExchangeActionView, ExchangeEventView,
    ExchangeView, ServerView,
};
use crate::settlement_laws::is_integer;
use crate::tools::{usage_of, ToolUsage};

verus! {

// ---------------------------------------------------------------------------
// What is reserved.

/// The most a response can hold: the model's maximum, or the client's cap where
/// that is lower.
pub open spec fn most_output(entry: EntryView, cap: Option<u64>) -> int {
    match cap {
        Some(n) if n <= entry.spec.max_output_tokens => n as int,
        _ => entry.spec.max_output_tokens as int,
    }
}

/// Law: the catalog's entry for a model is the first under its name.
pub proof fn a_model_is_found_by_its_name(
    catalog: Seq<(Seq<char>, EntryView)>,
    name: Seq<char>,
    i: int,
)
    ensures
        0 <= i < catalog.len() && catalog[i].0 == name && (forall|k: int|
            0 <= k < i ==> (#[trigger] catalog[k]).0 != name) ==> entry_of(catalog, name, 0)
            == Some(catalog[i].1),
        (forall|k: int| 0 <= k < catalog.len() ==> (#[trigger] catalog[k]).0 != name) ==> entry_of(
            catalog,
            name,
            0,
        ) is None,
{
    if 0 <= i < catalog.len() && catalog[i].0 == name && (forall|k: int|
        0 <= k < i ==> (#[trigger] catalog[k]).0 != name) {
        lemma_entry_from(catalog, name, 0, i);
    }
    if forall|k: int| 0 <= k < catalog.len() ==> (#[trigger] catalog[k]).0 != name {
        lemma_entry_from(catalog, name, 0, catalog.len() as int);
    }
}

proof fn lemma_entry_from(
    catalog: Seq<(Seq<char>, EntryView)>,
    name: Seq<char>,
    from: int,
    i: int,
)
    requires
        0 <= from <= i <= catalog.len(),
        forall|k: int| 0 <= k < i ==> (#[trigger] catalog[k]).0 != name,
        i < catalog.len() ==> catalog[i].0 == name,
    ensures
        entry_of(catalog, name, from) == (if i < catalog.len() {
            Some(catalog[i].1)
        } else {
            None
        }),
    decreases i - from,
{
    if from < i {
        lemma_entry_from(catalog, name, from + 1, i);
    }
}

/// Law: what a request can consume is bounded before it is reserved. A flat
/// request to a model with a known byte-level encoding is bounded by one token
/// for every byte of its input and its instructions, the framing allowance for
/// each of these texts, and the most its response can hold, and that is what is
/// asked for. Any other request is counted first, over all its count bodies. A
/// request that can have no output, or whose bound cannot be held, is refused.
pub proof fn a_request_is_bounded_before_it_is_reserved(
    catalog: Seq<(Seq<char>, EntryView)>,
    policy: PolicyView,
    request: RequestView,
    entry: EntryView,
)
    requires
        entry_of(catalog, request.model, 0) == Some(entry),
    ensures
        ({
            let step = first_step(catalog, policy, request, Window::Open);
            let output = most_output(entry, request.max_output_tokens);
            if request.max_output_tokens == Some(0u64) {
                step == StepView::Refuse(RefusedView::Estimate(EstimateError::ZeroOutputCap))
            } else if flat_of(request.fields) is Some && entry.spec.byte_level_encoding_known {
                let flat = flat_of(request.fields)->0;
                let framing = policy.estimator.framing();
                let bound = match flat.instructions {
                    Some(text) => encode_utf8(flat.input).len() + encode_utf8(text).len() + framing
                        + framing + output,
                    None => encode_utf8(flat.input).len() + framing + output,
                };
                if bound > u64::MAX {
                    step == StepView::Refuse(RefusedView::Estimate(EstimateError::Overflow))
                } else {
                    step matches StepView::Reserve(proposal) && proposal.request.liability == bound
                        && proposal.request.pool_id == entry.pool_id
                }
            } else {
                step matches StepView::Count(counting) && counting.output_bound == output
                    && counting.bodies == count_bodies(request.fields) && counting.next == 0
                    && counting.input_bound == 0 && counting.pool_id == entry.pool_id
            }
        }),
{
}

/// Law: nothing is reserved while the window is not open, and the refusal says
/// why.
pub proof fn a_window_that_is_not_open_says_why(
    catalog: Seq<(Seq<char>, EntryView)>,
    policy: PolicyView,
    request: RequestView,
    window: Window,
)
    ensures
        ({
            let step = first_step(catalog, policy, request, window);
            match entry_of(catalog, request.model, 0) {
                None => step == StepView::Refuse(RefusedView::UnknownModel(request.model)),
                Some(_) => match window {
                    Window::Closed(reason) => step == StepView::Refuse(
                        RefusedView::WindowClosed(reason),
                    ),
                    Window::RolloverDue { epoch } => step == StepView::Refuse(
                        RefusedView::RolloverDue { epoch },
                    ),
                    Window::Open => !(step matches StepView::Refuse(refused) && !(
                    refused is Estimate)),
                },
            }
        }),
{
}

/// Law: what is asked of the ledger is for the request itself: its model, the
/// default service tier, the accounting revision and safety inputs in force,
/// and the digest of exactly the body that is then sent.
pub proof fn a_proposal_is_for_the_request(
    policy: PolicyView,
    request: RequestView,
    pool_id: Seq<char>,
    liability: u64,
)
    ensures
        ({
            let proposal = proposal_of(policy, request, pool_id, liability);
            &&& proposal.request.pool_id == pool_id
            &&& proposal.request.liability == liability
            &&& proposal.request.model_snapshot == request.model
            &&& proposal.request.service_tier == "default"@
            &&& proposal.request.accounting_rev == policy.accounting_rev
            &&& proposal.request.required_safety_inputs == policy.required_safety_inputs
            &&& proposal.body == json_bytes(JsonView::Object(openai_fields(request.fields)))
            &&& proposal.request.request_digest == crate::admission::digest_text(proposal.body)
        }),
{
}

/// Law: only a reservation admits a request, with the body it was made for and
/// under the accounting revision in force; a refusal of the ledger is passed on
/// as it is.
pub proof fn only_a_reservation_admits(
    policy: PolicyView,
    body: Seq<u8>,
    answer: Result<AdmissionView, Seq<char>>,
)
    ensures
        match decision_on(policy, body, answer) {
            DecisionView::Admitted(permit) => answer == Ok::<AdmissionView, Seq<char>>(
                AdmissionView::Reserved(permit.reservation),
            ) && permit.body == body && permit.accounting_rev == policy.accounting_rev,
            DecisionView::Refused(RefusedView::Ledger(refusal)) => answer == Ok::<
                AdmissionView,
                Seq<char>,
            >(AdmissionView::Refused(refusal)),
            DecisionView::Refused(RefusedView::LedgerUnavailable(detail)) => answer == Err::<
                AdmissionView,
                Seq<char>,
            >(detail),
            _ => false,
        },
{
}

/// Law: a count is the whole number under `input_tokens` of a successful
/// answer, and nothing else is one.
pub proof fn a_count_is_what_the_counter_says(document: JsonView, n: u64, text: Seq<char>)
    ensures
        count_in(Some(document)) == Ok::<u64, Seq<char>>(n) <==> json_get(
            document,
            "input_tokens"@,
        ) == Some(JsonView::Number(NumberView::Unsigned(n))),
        count_in(None) is Err,
        counter_answer(false, text, text) is Err,
{
}

// ---------------------------------------------------------------------------
// Where it goes.

/// Law: a model covers a request exactly where it was measured to take every
/// kind of tool the request carries, tools in an input item counting as a
/// namespace, and a constrained output where one is asked for.
pub proof fn a_model_covers_what_it_was_measured_for(
    model: RouteModelView,
    usage: ToolUsage,
    needs_structured_output: bool,
)
    ensures
        covers(model, usage, needs_structured_output) <==> {
            &&& !usage.function || model.function_tools
            &&& !usage.custom || model.custom_tools
            &&& !(usage.namespace || usage.additional_tools) || model.namespace_tools
            &&& !needs_structured_output || model.structured_outputs
        },
{
}

proof fn lemma_covering_from(models: Seq<RouteModelView>, request: RequestView, from: int, i: int)
    requires
        0 <= from <= i < models.len(),
        covers(models[i], usage_of(request.fields), structured(request.fields)),
        forall|k: int|
            0 <= k < i ==> !covers(
                #[trigger] models[k],
                usage_of(request.fields),
                structured(request.fields),
            ),
    ensures
        first_covering(models, request, from) == Some(models[i]),
    decreases i - from,
{
    if from < i {
        lemma_covering_from(models, request, from + 1, i);
    }
}

/// Law: a request that OpenAI's grant cannot cover is routed to the first
/// model that covers it, where the account is open, with the body made for that
/// model, and counted against the day of its time.
pub proof fn what_the_grant_cannot_cover_is_routed(
    server: ServerView,
    request: RequestView,
    now: i64,
    body: Seq<u8>,
    remaining: i64,
    liability: i64,
    i: int,
)
    requires
        0 <= i < server.route.len(),
        covers(server.route[i], usage_of(request.fields), structured(request.fields)),
        forall|k: int|
            0 <= k < i ==> !covers(
                #[trigger] server.route[k],
                usage_of(request.fields),
                structured(request.fields),
            ),
    ensures
        exchange_step(
            server,
            ExchangeView::Reserving { request, now, body },
            ExchangeEventView::Reserved {
                answer: Ok(
                    AdmissionView::Refused(
                        RefusalView::InsufficientQuota { remaining, liability },
                    ),
                ),
                route_open: true,
            },
        ) matches Some((ExchangeView::Routing { model: waiting, .. }, ExchangeActionView::Route {
            model,
            body: sent,
            epoch,
        })) && {
            &&& model == server.route[i].id
            &&& waiting == model
            &&& sent == json_bytes(JsonView::Object(openrouter_fields(request.fields, model)))
            &&& epoch * 86_400 <= now < (epoch + 1) * 86_400
        },
{
    lemma_covering_from(server.route, request, 0, i);
}

/// Law: a stream is attributed to whoever serves it, and to the model that was
/// asked for there.
pub proof fn a_stream_is_attributed_to_who_serves_it(server: ServerView, state: ExchangeView)
    ensures
        match state {
            ExchangeView::Dispatching { model, .. } => exchange_step(
                server,
                state,
                ExchangeEventView::Streaming,
            ) == Some(
                (
                    ExchangeView::Done,
                    ExchangeActionView::Stream(AttributionView { provider: "openai"@, model }),
                ),
            ),
            ExchangeView::Routing { model, .. } => exchange_step(
                server,
                state,
                ExchangeEventView::Streaming,
            ) == Some(
                (
                    ExchangeView::Done,
                    ExchangeActionView::Stream(AttributionView { provider: "openrouter"@, model }),
                ),
            ),
            _ => exchange_step(server, state, ExchangeEventView::Streaming) is None,
        },
{
}

/// Law: an admitted request is dispatched under the model it asks for, a
/// refused one that is not routed is answered, and so are failures to read the
/// window or to open the day.
pub proof fn a_refused_request_is_answered(
    server: ServerView,
    request: RequestView,
    now: i64,
    refused: RefusedView,
    route_open: bool,
)
    requires
        !(refused matches RefusedView::Ledger(RefusalView::InsufficientQuota { .. })) || !route_open
            || (forall|k: int|
            0 <= k < server.route.len() ==> !covers(
                #[trigger] server.route[k],
                usage_of(request.fields),
                structured(request.fields),
            )),
    ensures
        on_refused(server, request, now, refused, route_open) == (
            ExchangeView::Done,
            ExchangeActionView::Respond(refused_view(refused, now)),
        ),
{
    if forall|k: int|
        0 <= k < server.route.len() ==> !covers(
            #[trigger] server.route[k],
            usage_of(request.fields),
            structured(request.fields),
        ) {
        lemma_nothing_covers(server.route, request, 0);
    }
}

proof fn lemma_nothing_covers(models: Seq<RouteModelView>, request: RequestView, from: int)
    requires
        0 <= from <= models.len(),
        forall|k: int|
            0 <= k < models.len() ==> !covers(
                #[trigger] models[k],
                usage_of(request.fields),
                structured(request.fields),
            ),
    ensures
        first_covering(models, request, from) is None,
    decreases models.len() - from,
{
    if from < models.len() {
        lemma_nothing_covers(models, request, from + 1);
    }
}

// ---------------------------------------------------------------------------
// What it is answered.

/// A member of the error that a reply carries.
pub open spec fn error_part(reply: ReplyView, key: Seq<char>) -> Option<JsonView> {
    match reply.body {
        ReplyBodyView::Json(body) => match json_get(body, "error"@) {
            Some(error) => json_get(error, key),
            None => None,
        },
        ReplyBodyView::Raw(_) => None,
    }
}

/// The fields of an error stand under their names.
pub proof fn lemma_error_parts(
    message: Seq<char>,
    kind: Seq<char>,
    param: JsonView,
    code: JsonView,
    more: Seq<(Seq<char>, JsonView)>,
)
    requires
        more.len() == 0 || (more.len() == 1 && more[0].0 == "resets_at"@),
    ensures
        ({
            let fields = error_fields(message, kind, param, code) + more;
            let error = json_get(error_object(fields), "error"@);
            &&& error == Some(JsonView::Object(fields))
            &&& json_get(error->0, "message"@) == Some(JsonView::Text(message))
            &&& json_get(error->0, "type"@) == Some(JsonView::Text(kind))
            &&& json_get(error->0, "param"@) == Some(param)
            &&& json_get(error->0, "code"@) == Some(code)
            &&& more.len() == 1 ==> json_get(error->0, "resets_at"@) == Some(more[0].1)
        }),
{
    let fields = error_fields(message, kind, param, code) + more;
    reveal_strlit("error");
    reveal_strlit("message");
    reveal_strlit("type");
    reveal_strlit("param");
    reveal_strlit("code");
    reveal_strlit("resets_at");
    assert("message"@.len() == 7 && "param"@.len() == 5 && "resets_at"@.len() == 9);
    assert("type"@.len() == 4 && "type"@[0] == 't');
    assert("code"@.len() == 4 && "code"@[0] == 'c');
    let outer = seq![("error"@, JsonView::Object(fields))];
    lemma_first_member(outer, "error"@, 0);
    lemma_first_member(fields, "message"@, 0);
    lemma_first_member(fields, "type"@, 1);
    lemma_first_member(fields, "param"@, 2);
    lemma_first_member(fields, "code"@, 3);
    if more.len() == 1 {
        lemma_first_member(fields, "resets_at"@, 4);
    }
}

/// Law: a reply that nothing can serve a request is a 429 whose error says
/// `usage_limit_reached`, both as its type and as its code, with the message
/// and the time of the reset, where it is known.
pub proof fn an_unavailable_reply_says_so(message: Seq<char>, resets_at: Option<i64>)
    ensures
        ({
            let reply = unavailable_view(message, resets_at);
            &&& reply.status == 429
            &&& error_part(reply, "type"@) == Some(JsonView::Text("usage_limit_reached"@))
            &&& error_part(reply, "code"@) == Some(JsonView::Text("usage_limit_reached"@))
            &&& error_part(reply, "message"@) == Some(JsonView::Text(message))
            &&& match resets_at {
                Some(at) => error_part(reply, "resets_at"@) matches Some(value) && is_integer(
                    value,
                    at,
                ),
                None => error_part(reply, "resets_at"@) == Some(JsonView::Null),
            }
            &&& reply.retry_after is None
            &&& reply.attribution is None
        }),
{
    let base = error_fields(
        message,
        "usage_limit_reached"@,
        JsonView::Null,
        JsonView::Text("usage_limit_reached"@),
    );
    let more = seq![("resets_at"@, integer_or_null(resets_at))];
    lemma_error_parts(
        message,
        "usage_limit_reached"@,
        JsonView::Null,
        JsonView::Text("usage_limit_reached"@),
        more,
    );
    assert(base.push(more[0]) =~= base + more);
}

/// Law: an error has the type that OpenAI gives its status, and the message.
pub proof fn an_error_has_the_type_of_its_status(status: u16, message: Seq<char>)
    ensures
        ({
            let reply = error_view(status, message);
            &&& reply.status == status
            &&& error_part(reply, "message"@) == Some(JsonView::Text(message))
            &&& error_part(reply, "param"@) == Some(JsonView::Null)
            &&& error_part(reply, "code"@) == Some(JsonView::Null)
            &&& error_part(reply, "type"@) == Some(
                JsonView::Text(
                    if status == 401 || status == 403 {
                        "authentication_error"@
                    } else if status == 402 {
                        "insufficient_quota"@
                    } else if status == 404 {
                        "not_found_error"@
                    } else if status == 409 {
                        "conflict_error"@
                    } else if status == 429 {
                        "rate_limit_error"@
                    } else if 400 <= status < 500 {
                        "invalid_request_error"@
                    } else {
                        "api_error"@
                    },
                ),
            )
            &&& reply.retry_after is None
            &&& reply.attribution is None
        }),
{
    let kind = crate::error_body::error_type(status);
    let base = error_fields(message, kind, JsonView::Null, JsonView::Null);
    lemma_error_parts(message, kind, JsonView::Null, JsonView::Null, Seq::empty());
    assert(base + Seq::<(Seq<char>, JsonView)>::empty() =~= base);
}

/// Law: a request outside the allowlist is answered 400, with the message, the
/// offending path where there is one, and the name of what is wrong.
pub proof fn a_rejection_names_what_is_wrong(rejection: RejectionView)
    ensures
        ({
            let reply = rejection_view(rejection);
            &&& reply.status == 400
            &&& error_part(reply, "type"@) == Some(JsonView::Text("invalid_request_error"@))
            &&& error_part(reply, "message"@) == Some(JsonView::Text(rejection.message))
            &&& error_part(reply, "param"@) == Some(
                match rejection.param {
                    Some(path) => JsonView::Text(path),
                    None => JsonView::Null,
                },
            )
            &&& error_part(reply, "code"@) == Some(
                JsonView::Text(
                    match rejection.code {
                        RejectionCode::InvalidJson => "invalid_json"@,
                        RejectionCode::DuplicateKey => "duplicate_key"@,
                        RejectionCode::UnsupportedParameter => "unsupported_parameter"@,
                        RejectionCode::MissingParameter => "missing_required_parameter"@,
                        RejectionCode::InvalidValue => "invalid_value"@,
                        RejectionCode::ServerSideState => "server_side_state_unsupported"@,
                        RejectionCode::HostedTool => "hosted_tool_unsupported"@,
                        RejectionCode::UnsupportedInputItem => "unsupported_input_item"@,
                        RejectionCode::RemoteReference => "remote_reference_unsupported"@,
                    },
                ),
            )
            &&& reply.retry_after is None
            &&& reply.attribution is None
        }),
{
    let param = text_or_null(rejection.param);
    let code = JsonView::Text(crate::rejection::code_name(rejection.code));
    let base = error_fields(rejection.message, "invalid_request_error"@, param, code);
    lemma_error_parts(rejection.message, "invalid_request_error"@, param, code, Seq::empty());
    assert(base + Seq::<(Seq<char>, JsonView)>::empty() =~= base);
}

/// Law: the end of a day is the first midnight after a time.
pub proof fn a_day_ends_at_the_next_midnight(now: i64)
    requires
        now <= i64::MAX - 86_400,
    ensures
        now < day_end(now) <= now + 86_400,
        day_end(now) % 86_400 == 0,
{
}

/// Law: which refusals can be waited out. What the day's grant does not cover,
/// a day that is not open and a window that is closed reset at the end of the
/// day; everything else about the ledger names no time, and what failed is not
/// a usage limit at all.
pub proof fn a_refusal_names_when_it_ends(refused: RefusedView, now: i64)
    ensures
        ({
            let reply = refused_view(refused, now);
            match refused {
                RefusedView::UnknownModel(model) => {
                    &&& reply.status == 400
                    &&& error_part(reply, "param"@) == Some(JsonView::Text("model"@))
                    &&& error_part(reply, "code"@) == Some(JsonView::Text("model_not_configured"@))
                },
                RefusedView::Ledger(RefusalView::InsufficientQuota { .. })
                | RefusedView::Ledger(RefusalView::PoolNotOpen { .. })
                | RefusedView::WindowClosed(_) => {
                    &&& reply.status == 429
                    &&& error_part(reply, "resets_at"@) matches Some(value) && is_integer(
                        value,
                        day_end(now),
                    )
                },
                RefusedView::RolloverDue { .. } | RefusedView::Ledger(_) => {
                    &&& reply.status == 429
                    &&& error_part(reply, "resets_at"@) == Some(JsonView::Null)
                },
                RefusedView::InputNotCounted(_) | RefusedView::Estimate(_)
                | RefusedView::LedgerUnavailable(_) => reply.status == 503,
            }
        }),
{
    match refused {
        RefusedView::UnknownModel(model) => {
            let message = "`"@ + model + "` is not a model QuotaMiser is configured to serve."@;
            let code = JsonView::Text("model_not_configured"@);
            let param = JsonView::Text("model"@);
            let base = error_fields(message, "invalid_request_error"@, param, code);
            lemma_error_parts(message, "invalid_request_error"@, param, code, Seq::empty());
            assert(base + Seq::<(Seq<char>, JsonView)>::empty() =~= base);
        },
        RefusedView::InputNotCounted(_) | RefusedView::Estimate(_)
        | RefusedView::LedgerUnavailable(_) => {},
        _ => {
            assert forall|message: Seq<char>, at: Option<i64>|
                match at {
                    Some(time) => error_part(
                        #[trigger] unavailable_view(message, at),
                        "resets_at"@,
                    ) matches Some(value) && is_integer(value, time),
                    None => error_part(unavailable_view(message, at), "resets_at"@) == Some(
                        JsonView::Null,
                    ),
                } by {
                an_unavailable_reply_says_so(message, at);
            }
        },
    }
}

/// Law: a provider that is held back is answered for with a 429 that says in
/// how many seconds to try again: those of the wait, without a fraction, and at
/// least one.
pub proof fn a_wait_is_given_in_seconds(nanos: u64, now: i64)
    requires
        now + nanos <= i64::MAX,
        now <= i64::MAX - 1,
    ensures
        ({
            let reply = held_back_view(nanos, now);
            &&& reply.status == 429
            &&& reply.retry_after matches Some(seconds) && {
                &&& seconds >= 1
                &&& nanos >= 1_000_000_000 ==> seconds * 1_000_000_000 <= nanos < (seconds + 1)
                    * 1_000_000_000
                &&& nanos < 1_000_000_000 ==> seconds == 1
                &&& error_part(reply, "resets_at"@) matches Some(value) && is_integer(
                    value,
                    (now + seconds) as i64,
                )
            }
            &&& reply.attribution is None
        }),
{
    let seconds = crate::replies::wait_seconds(nanos);
    assert(seconds <= 1 || seconds * 1_000_000_000 <= nanos);
    let message =
        "The provider is not accepting requests right now. Nothing was sent, and no quota was spent."@;
    an_unavailable_reply_says_so(
        message,
        Some(crate::replies::clipped_time(now + seconds)),
    );
    let plain = unavailable_view(message, Some(crate::replies::clipped_time(now + seconds)));
    let reply = held_back_view(nanos, now);
    assert(reply.body == plain.body);
    assert(error_part(reply, "resets_at"@) == error_part(plain, "resets_at"@));
}

/// Law: a provider's own refusal reaches the client as it came, with who it was
/// and the model that was asked for; a request that was not sent, or whose
/// outcome is unknown, is answered 503.
pub proof fn a_providers_refusal_is_passed_on(
    head: HeadView,
    sent: SentView,
    model: Seq<char>,
    refusal: ReplyView,
    now: i64,
)
    ensures
        match head {
            HeadView::Refused { status, body, .. } => head_view(head, model, now) == (ReplyView {
                status,
                body: ReplyBodyView::Raw(body),
                retry_after: None,
                attribution: Some(AttributionView { provider: "openai"@, model }),
            }),
            HeadView::RateLimited { retry_after } | HeadView::CoolingDown { retry_after } =>
                head_view(head, model, now) == held_back_view(retry_after, now),
            HeadView::NotSent(why) | HeadView::OutcomeUnknown(why) => head_view(head, model, now)
                == error_view(503, why),
        },
        match sent {
            SentView::Refused { status, body } => sent_view(sent, model, refusal, now) == (
            ReplyView {
                status,
                body: ReplyBodyView::Raw(body),
                retry_after: None,
                attribution: Some(AttributionView { provider: "openrouter"@, model }),
            }),
            SentView::Exhausted { .. } | SentView::Closed => sent_view(sent, model, refusal, now)
                == refusal,
            SentView::HeldBack { retry_after } => sent_view(sent, model, refusal, now)
                == held_back_view(retry_after, now),
            SentView::Failed(why) => sent_view(sent, model, refusal, now) == error_view(503, why),
        },
{
}

/// Law: an upgrade is answered 426, and a request without trusted time a 429
/// that names no reset.
pub proof fn an_upgrade_and_a_missing_clock_have_their_answers()
    ensures
        upgrade_view().status == 426,
        timeless_view().status == 429,
        error_part(timeless_view(), "resets_at"@) == Some(JsonView::Null),
{
    an_unavailable_reply_says_so(
        "QuotaMiser has no trusted reading of the provider's clock, so it cannot tell which day's quota this would spend."@,
        None,
    );
}

/// Law: the listing of the models names each configured model, in order.
pub proof fn the_listing_names_every_model(catalog: Seq<(Seq<char>, EntryView)>, i: int)
    requires
        0 <= i < catalog.len(),
    ensures
        json_get(listing_view(catalog), "object"@) == Some(JsonView::Text("list"@)),
        json_get(listing_view(catalog), "data"@) matches Some(JsonView::Array(models))
            && models.len() == catalog.len() && json_get(models[i], "id"@) == Some(
            JsonView::Text(catalog[i].0),
        ) && json_get(models[i], "object"@) == Some(JsonView::Text("model"@)),
{
    reveal_strlit("object");
    reveal_strlit("data");
    reveal_strlit("id");
    assert("object"@.len() == 6 && "data"@.len() == 4 && "id"@.len() == 2);
    let listing = listing_view(catalog)->Object_0;
    lemma_first_member(listing, "object"@, 0);
    lemma_first_member(listing, "data"@, 1);
    let entry = model_view(catalog[i].0)->Object_0;
    lemma_first_member(entry, "id"@, 0);
    lemma_first_member(entry, "object"@, 1);
    let models = json_get(listing_view(catalog), "data"@)->0->Array_0;
    assert(models[i] == model_view(catalog[i].0));
}

// ---------------------------------------------------------------------------
// How an exchange goes on.

/// A step ends an exchange with an answer.
pub open spec fn ends_with_answer(
    step: Option<(ExchangeView, ExchangeActionView)>,
    reply: ReplyView,
) -> bool {
    step == Some((ExchangeView::Done, ExchangeActionView::Respond(reply)))
}

/// A step ends an exchange with an error of this status, in these words.
pub open spec fn ends_with_error(
    step: Option<(ExchangeView, ExchangeActionView)>,
    status: u16,
    message: Seq<char>,
) -> bool {
    step matches Some((ExchangeView::Done, ExchangeActionView::Respond(reply))) && reply.status
        == status && error_part(reply, "message"@) == Some(JsonView::Text(message))
}

/// Law: an upgrade is answered first, then what is wrong with the request, then
/// that there is no clock; only what is left asks whether the day may be spent.
pub proof fn what_arrives_is_answered_in_order(
    server: ServerView,
    upgrade: bool,
    body: Seq<u8>,
    now: Option<i64>,
)
    ensures
        ({
            let step = exchange_step(
                server,
                ExchangeView::Starting,
                ExchangeEventView::Arrived { upgrade, body, now },
            );
            if upgrade {
                step matches Some((ExchangeView::Done, ExchangeActionView::Respond(reply)))
                    && reply.status == 426
            } else {
                match (parsed_request(body), now) {
                    (Err(rejection), _) => ends_with_answer(step, rejection_view(rejection)),
                    (Ok(_), None) => step matches Some(
                        (ExchangeView::Done, ExchangeActionView::Respond(reply)),
                    ) && reply.status == 429 && error_part(reply, "resets_at"@) == Some(
                        JsonView::Null,
                    ),
                    (Ok(request), Some(at)) => step == Some(
                        (
                            ExchangeView::Windowing { request, now: at, again: false },
                            ExchangeActionView::ReadWindow,
                        ),
                    ),
                }
            }
        }),
{
    an_upgrade_and_a_missing_clock_have_their_answers();
}

/// Law: a day that is due is opened, once, before a request is weighed; where
/// the window cannot be read or the day not opened the answer is a 503 that
/// says why.
pub proof fn a_due_day_is_opened_first(
    server: ServerView,
    request: RequestView,
    now: i64,
    again: bool,
    epoch: i64,
    detail: Seq<char>,
)
    ensures
        exchange_step(
            server,
            ExchangeView::Windowing { request, now, again: false },
            ExchangeEventView::Window(Ok(Window::RolloverDue { epoch })),
        ) == Some(
            (
                ExchangeView::Opening { request, now },
                ExchangeActionView::OpenEpoch { epoch },
            ),
        ),
        exchange_step(
            server,
            ExchangeView::Opening { request, now },
            ExchangeEventView::Opened(Ok(())),
        ) == Some(
            (
                ExchangeView::Windowing { request, now, again: true },
                ExchangeActionView::ReadWindow,
            ),
        ),
        ends_with_error(
            exchange_step(
                server,
                ExchangeView::Windowing { request, now, again },
                ExchangeEventView::Window(Err(detail)),
            ),
            503,
            detail,
        ),
        ends_with_error(
            exchange_step(
                server,
                ExchangeView::Opening { request, now },
                ExchangeEventView::Opened(Err(detail)),
            ),
            503,
            detail,
        ),
{
    an_error_has_the_type_of_its_status(503, detail);
}

/// Law: a request goes on by how it is weighed: refused, it is answered; where
/// its input has to be counted, the next body is; and what is proposed is
/// reserved, for the body that is proposed with it.
pub proof fn a_request_goes_on_by_how_it_is_weighed(
    server: ServerView,
    request: RequestView,
    now: i64,
    again: bool,
    window: Window,
    counting: CountingView,
    answer: Result<u64, Seq<char>>,
)
    requires
        window is RolloverDue ==> again,
    ensures
        ({
            let weighed = first_step(server.catalog, server.policy, request, window);
            let step = exchange_step(
                server,
                ExchangeView::Windowing { request, now, again },
                ExchangeEventView::Window(Ok(window)),
            );
            goes_on(request, now, weighed, step)
        }),
        ({
            let weighed = counted_step(server.policy, request, counting, answer);
            let step = exchange_step(
                server,
                ExchangeView::Counting { request, now, counting },
                ExchangeEventView::Counted(answer),
            );
            goes_on(request, now, weighed, step)
        }),
{
}

/// An exchange goes on as its request was weighed.
pub open spec fn goes_on(
    request: RequestView,
    now: i64,
    weighed: StepView,
    step: Option<(ExchangeView, ExchangeActionView)>,
) -> bool {
    match weighed {
        StepView::Refuse(refused) => ends_with_answer(step, refused_view(refused, now)),
        StepView::Count(counting) => step matches Some((state, action)) && state
            == (ExchangeView::Counting { request, now, counting }) && action
            == (ExchangeActionView::Count { document: counting.bodies[counting.next] }),
        StepView::Reserve(proposal) => step matches Some((state, action)) && state
            == (ExchangeView::Reserving { request, now, body: proposal.body }) && action
            == (ExchangeActionView::Reserve { request: proposal.request, now }),
    }
}

/// Law: a reservation sends its request, for the body it was made for; and what
/// the provider answers is what the client is answered, of the model it asked
/// for.
pub proof fn a_reserved_request_is_sent_and_answered(
    server: ServerView,
    request: RequestView,
    now: i64,
    body: Seq<u8>,
    id: ReservationId,
    route_open: bool,
    head: HeadView,
    sent: SentView,
    model: Seq<char>,
    refusal: ReplyView,
)
    ensures
        exchange_step(
            server,
            ExchangeView::Reserving { request, now, body },
            ExchangeEventView::Reserved { answer: Ok(AdmissionView::Reserved(id)), route_open },
        ) matches Some((ExchangeView::Dispatching { model, now: at }, ExchangeActionView::Dispatch(
            permit,
        ))) && {
            &&& model == request.model
            &&& at == now
            &&& permit.reservation == id
            &&& permit.body == body
            &&& permit.accounting_rev == server.policy.accounting_rev
        },
        ends_with_answer(
            exchange_step(
                server,
                ExchangeView::Dispatching { model, now },
                ExchangeEventView::Dispatched(head),
            ),
            head_view(head, model, now),
        ),
        ends_with_answer(
            exchange_step(
                server,
                ExchangeView::Routing { model, refusal, now },
                ExchangeEventView::Routed(sent),
            ),
            sent_view(sent, model, refusal, now),
        ),
{
}

} // verus!
