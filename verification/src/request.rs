//! A client's `POST /v1/responses` body: parsed once, checked against the
//! allowlist, and normalized into the body that is reserved for and sent
//! upstream.
//!
//! Deny by default. A field, input item, content part, tool type or
//! enumerated value that is not listed is refused, standard Responses API
//! features included: an unlisted feature may bill outside the token grant,
//! or add input the liability cannot see.
//!
//! Normalization removes `id` and `status` from input items, so history
//! always travels by content and never by reference to stored items. It
//! removes `client_metadata`, where Codex puts workspace details such as git
//! remote URLs. It replaces `store`, `stream` and `service_tier` with the
//! values the upstream request needs. Field order is kept, and nothing else
//! is rewritten.
//!
//! Accepting a tool type here says nothing about how it is billed.
use vstd::prelude::*;
use vstd::string::*;

use crate::allowlist::{check, checked};
use crate::codec::{read_strict, strict_document, StrictError, StrictErrorView};
use crate::json::{
    has_member, json_u64, lemma_object_view, member, member_of, members_view, Json, JsonView,
};
use crate::rejection::{
    missing_parameter, missing_view, rejected, unsupported_parameter, unsupported_parameter_view,
    Rejection, RejectionCode, RejectionView,
};
use crate::shapes::{Rule, Shape};
use crate::text::str_eq;

verus! {

/// The service tier every upstream request is sent with, and the one
/// settlement expects the terminal event to report. Sending `auto`, or
/// nothing, reports `auto` until the terminal event and `default` in it, which
/// would fail validation on the first settlement.
pub const UPSTREAM_SERVICE_TIER: &'static str = "default";

/// What becomes of a top-level field.
#[derive(Debug, Clone, Copy, PartialEq, Eq, Structural)]
pub enum TopRule {
    /// Checked, normalized and kept.
    Keep(Rule),
    /// Checked, and left out of the normalized request.
    Drop(Rule),
    /// Left out, whatever it holds.
    Ignore,
    Stream,
    Background,
    ServerState,
    Unknown,
}

/// The rule for a top-level field.
pub open spec fn top_rule(key: Seq<char>) -> TopRule {
    if key == "stream"@ {
        TopRule::Stream
    } else if key == "background"@ {
        TopRule::Background
    } else if key == "store"@ {
        TopRule::Drop(Rule::Bool)
    } else if key == "service_tier"@ {
        TopRule::Drop(Rule::Text)
    } else if key == "prompt_cache_options"@ {
        TopRule::Drop(Rule::ObjectOf(Shape::PromptCacheOptions))
    } else if key == "client_metadata"@ {
        TopRule::Ignore
    } else if key == "previous_response_id"@ || key == "conversation"@ || key == "prompt"@ {
        TopRule::ServerState
    } else if key == "model"@ {
        TopRule::Keep(Rule::NonEmptyText)
    } else if key == "input"@ {
        TopRule::Keep(Rule::Input)
    } else if key == "instructions"@ || key == "prompt_cache_key"@ {
        TopRule::Keep(Rule::Text)
    } else if key == "tools"@ {
        TopRule::Keep(Rule::ToolList)
    } else if key == "tool_choice"@ {
        TopRule::Keep(Rule::ToolChoice)
    } else if key == "parallel_tool_calls"@ {
        TopRule::Keep(Rule::Bool)
    } else if key == "reasoning"@ {
        TopRule::Keep(Rule::ObjectOf(Shape::Reasoning))
    } else if key == "text"@ {
        TopRule::Keep(Rule::ObjectOf(Shape::TextOptions))
    } else if key == "include"@ {
        TopRule::Keep(Rule::IncludeList)
    } else if key == "max_output_tokens"@ {
        TopRule::Keep(Rule::PositiveInteger)
    } else if key == "temperature"@ || key == "top_p"@ {
        TopRule::Keep(Rule::AnyNumber)
    } else if key == "metadata"@ {
        TopRule::Keep(Rule::Metadata)
    } else {
        TopRule::Unknown
    }
}

fn top_rule_for(key: &str) -> (rule: TopRule)
    ensures
        rule == top_rule(key@),
{
    if str_eq(key, "stream") {
        TopRule::Stream
    } else if str_eq(key, "background") {
        TopRule::Background
    } else if str_eq(key, "store") {
        TopRule::Drop(Rule::Bool)
    } else if str_eq(key, "service_tier") {
        TopRule::Drop(Rule::Text)
    } else if str_eq(key, "prompt_cache_options") {
        // `{"ttl": "30m"}` is the only supported value and the default.
        TopRule::Drop(Rule::ObjectOf(Shape::PromptCacheOptions))
    } else if str_eq(key, "client_metadata") {
        TopRule::Ignore
    } else if str_eq(key, "previous_response_id") || str_eq(key, "conversation") || str_eq(
        key,
        "prompt",
    ) {
        TopRule::ServerState
    } else if str_eq(key, "model") {
        TopRule::Keep(Rule::NonEmptyText)
    } else if str_eq(key, "input") {
        TopRule::Keep(Rule::Input)
    } else if str_eq(key, "instructions") || str_eq(key, "prompt_cache_key") {
        TopRule::Keep(Rule::Text)
    } else if str_eq(key, "tools") {
        TopRule::Keep(Rule::ToolList)
    } else if str_eq(key, "tool_choice") {
        TopRule::Keep(Rule::ToolChoice)
    } else if str_eq(key, "parallel_tool_calls") {
        TopRule::Keep(Rule::Bool)
    } else if str_eq(key, "reasoning") {
        TopRule::Keep(Rule::ObjectOf(Shape::Reasoning))
    } else if str_eq(key, "text") {
        TopRule::Keep(Rule::ObjectOf(Shape::TextOptions))
    } else if str_eq(key, "include") {
        TopRule::Keep(Rule::IncludeList)
    } else if str_eq(key, "max_output_tokens") {
        TopRule::Keep(Rule::PositiveInteger)
    } else if str_eq(key, "temperature") || str_eq(key, "top_p") {
        TopRule::Keep(Rule::AnyNumber)
    } else if str_eq(key, "metadata") {
        TopRule::Keep(Rule::Metadata)
    } else {
        TopRule::Unknown
    }
}

pub open spec fn server_state_view(path: Seq<char>) -> RejectionView {
    rejected(
        RejectionCode::ServerSideState,
        path,
        "`"@ + path
            + "` refers to state stored upstream, whose size cannot be counted before sending. Send the full conversation in `input` instead."@,
    )
}

/// What a top-level field leaves: a kept value, nothing, or a refusal.
pub open spec fn top_outcome(key: Seq<char>, value: JsonView) -> Result<
    Option<JsonView>,
    RejectionView,
> {
    match top_rule(key) {
        TopRule::Keep(rule) => match checked(rule, value, key) {
            Ok(kept) => Ok(Some(kept)),
            Err(rejection) => Err(rejection),
        },
        TopRule::Drop(rule) => match checked(rule, value, key) {
            Ok(_) => Ok(None),
            Err(rejection) => Err(rejection),
        },
        TopRule::Ignore | TopRule::Stream => Ok(None),
        TopRule::Background => if value is Null || value == JsonView::Bool(false) {
            Ok(None)
        } else {
            Err(
                rejected(
                    RejectionCode::InvalidValue,
                    key,
                    "`background` is managed by QuotaMiser. Omit it."@,
                ),
            )
        },
        TopRule::ServerState => if value is Null {
            Ok(None)
        } else {
            Err(server_state_view(key))
        },
        TopRule::Unknown => Err(unsupported_parameter_view(key)),
    }
}

/// The normalized fields; the first that is refused decides.
pub open spec fn top_fields(members: Seq<(Seq<char>, JsonView)>) -> Result<
    Seq<(Seq<char>, JsonView)>,
    RejectionView,
>
    decreases members.len(),
{
    if members.len() == 0 {
        Ok(Seq::empty())
    } else {
        match top_fields(members.drop_last()) {
            Err(rejection) => Err(rejection),
            Ok(kept) => match top_outcome(members.last().0, members.last().1) {
                Err(rejection) => Err(rejection),
                Ok(None) => Ok(kept),
                Ok(Some(value)) => Ok(kept.push((members.last().0, value))),
            },
        }
    }
}

/// A request in normalized form, as it is seen.
pub struct RequestView {
    pub fields: Seq<(Seq<char>, JsonView)>,
    pub model: Seq<char>,
    pub max_output_tokens: Option<u64>,
}

/// A request that passed the allowlist, in normalized form.
#[derive(Debug, PartialEq, Eq)]
pub struct CreateRequest {
    pub fields: Vec<(String, Json)>,
    pub model: String,
    pub max_output_tokens: Option<u64>,
}

impl View for CreateRequest {
    type V = RequestView;

    open spec fn view(&self) -> RequestView {
        RequestView {
            fields: members_view(self.fields@),
            model: self.model@,
            max_output_tokens: self.max_output_tokens,
        }
    }
}

pub open spec fn parsed_view(result: Result<CreateRequest, Rejection>) -> Result<
    RequestView,
    RejectionView,
> {
    match result {
        Ok(request) => Ok(request@),
        Err(rejection) => Err(rejection@),
    }
}

/// The message where `stream` is not `true`.
pub open spec fn streaming_only() -> Seq<char> {
    "QuotaMiser relays streamed responses only. Send `stream: true`."@
}

/// The request that an object's members are, once `stream`, the model and the
/// input are settled.
pub open spec fn settled_request(
    kept: Seq<(Seq<char>, JsonView)>,
    stream: Option<JsonView>,
) -> Result<RequestView, RejectionView> {
    match stream {
        None => Err(rejected(RejectionCode::MissingParameter, "stream"@, streaming_only())),
        Some(value) => if value != JsonView::Bool(true) {
            Err(rejected(RejectionCode::InvalidValue, "stream"@, streaming_only()))
        } else {
            match member_of(kept, "model"@) {
                Some(JsonView::Text(model)) => if !has_member(kept, "input"@) {
                    Err(missing_view("input"@))
                } else {
                    Ok(
                        RequestView {
                            fields: kept,
                            model,
                            max_output_tokens: match member_of(kept, "max_output_tokens"@) {
                                Some(value) => json_u64(value),
                                None => None,
                            },
                        },
                    )
                },
                _ => Err(missing_view("model"@)),
            }
        },
    }
}

/// The request that a JSON value is.
pub open spec fn request_of(value: JsonView) -> Result<RequestView, RejectionView> {
    match value {
        JsonView::Object(members) => match top_fields(members) {
            Err(rejection) => Err(rejection),
            Ok(kept) => settled_request(kept, member_of(members, "stream"@)),
        },
        _ => Err(
            RejectionView {
                code: RejectionCode::InvalidJson,
                param: None,
                message: "The request body must be a JSON object."@,
            },
        ),
    }
}

pub open spec fn unacceptable(code: RejectionCode, text: Seq<char>) -> RejectionView {
    RejectionView {
        code,
        param: None,
        message: "The request body is not acceptable JSON: "@ + text + "."@,
    }
}

/// The request that a body is. Duplicate keys are refused at any depth.
pub open spec fn parsed_request(body: Seq<u8>) -> Result<RequestView, RejectionView> {
    match strict_document(body) {
        Err(StrictErrorView::DuplicateKey(text)) => Err(
            unacceptable(RejectionCode::DuplicateKey, text),
        ),
        Err(StrictErrorView::Syntax(text)) => Err(unacceptable(RejectionCode::InvalidJson, text)),
        Ok(value) => request_of(value),
    }
}

/// A refusal among the first fields refuses the request.
pub proof fn lemma_top_fail(members: Seq<(Seq<char>, JsonView)>, n: int)
    requires
        0 <= n <= members.len(),
        top_fields(members.take(n)) is Err,
    ensures
        top_fields(members) == top_fields(members.take(n)),
    decreases members.len() - n,
{
    if n < members.len() {
        assert(members.take(n + 1).drop_last() =~= members.take(n));
        lemma_top_fail(members, n + 1);
    } else {
        assert(members.take(n) =~= members);
    }
}

/// What a top-level field leaves.
fn top_field(key: &str, value: &Json) -> (result: Result<Option<Json>, Rejection>)
    ensures
        match result {
            Ok(Some(kept)) => top_outcome(key@, value@) == Ok::<Option<JsonView>, RejectionView>(
                Some(kept@),
            ),
            Ok(None) => top_outcome(key@, value@) == Ok::<Option<JsonView>, RejectionView>(None),
            Err(rejection) => top_outcome(key@, value@) == Err::<Option<JsonView>, RejectionView>(
                rejection@,
            ),
        },
{
    match top_rule_for(key) {
        TopRule::Keep(rule) => match check(rule, value, key) {
            Ok(kept) => Ok(Some(kept)),
            Err(rejection) => Err(rejection),
        },
        TopRule::Drop(rule) => match check(rule, value, key) {
            Ok(_) => Ok(None),
            Err(rejection) => Err(rejection),
        },
        TopRule::Ignore | TopRule::Stream => Ok(None),
        TopRule::Background => {
            if matches!(value, Json::Null | Json::Bool(false)) {
                Ok(None)
            } else {
                Err(
                    Rejection::new(
                        RejectionCode::InvalidValue,
                        Some(key),
                        String::from_str("`background` is managed by QuotaMiser. Omit it."),
                    ),
                )
            }
        },
        TopRule::ServerState => {
            if value.is_null() {
                Ok(None)
            } else {
                let mut message = String::from_str("`");
                message.push_str(key);
                message.push_str(
                    "` refers to state stored upstream, whose size cannot be counted before sending. Send the full conversation in `input` instead.",
                );
                Err(Rejection::new(RejectionCode::ServerSideState, Some(key), message))
            }
        },
        TopRule::Unknown => Err(unsupported_parameter(key)),
    }
}

impl CreateRequest {
    pub fn parse(body: &[u8]) -> (result: Result<CreateRequest, Rejection>)
        ensures
            parsed_view(result) == parsed_request(body@),
    {
        match read_strict(body) {
            Ok(value) => CreateRequest::from_value(&value),
            Err(error) => {
                let (code, text) = match error {
                    StrictError::DuplicateKey(text) => (RejectionCode::DuplicateKey, text),
                    StrictError::Syntax(text) => (RejectionCode::InvalidJson, text),
                };
                let mut message = String::from_str("The request body is not acceptable JSON: ");
                message.push_str(text.as_str());
                message.push_str(".");
                Err(Rejection::new(code, None, message))
            },
        }
    }

    /// The request that a JSON value is.
    pub fn from_value(value: &Json) -> (result: Result<CreateRequest, Rejection>)
        ensures
            parsed_view(result) == request_of(value@),
    {
        let object = match value {
            Json::Object(members) => members,
            _ => {
                return Err(
                    Rejection::new(
                        RejectionCode::InvalidJson,
                        None,
                        String::from_str("The request body must be a JSON object."),
                    ),
                );
            },
        };
        let ghost all = members_view(object@);
        proof {
            lemma_object_view(*object);
        }
        let mut fields: Vec<(String, Json)> = Vec::new();
        assert(all.take(0) =~= Seq::empty());
        assert(members_view(fields@) =~= Seq::empty());
        let mut i: usize = 0;
        while i < object.len()
            invariant
                i <= object@.len(),
                all == members_view(object@),
                value@ == JsonView::Object(all),
                top_fields(all.take(i as int)) == Ok::<Seq<(Seq<char>, JsonView)>, RejectionView>(
                    members_view(fields@),
                ),
            decreases object.len() - i,
        {
            let ghost done = members_view(fields@);
            let entry = &object[i];
            proof {
                assert(all.take(i + 1).drop_last() =~= all.take(i as int));
                assert(all.take(i + 1).last() == (entry.0@, entry.1@));
            }
            match top_field(entry.0.as_str(), &entry.1) {
                Err(rejection) => {
                    proof {
                        lemma_top_fail(all, i + 1);
                    }
                    return Err(rejection);
                },
                Ok(None) => {},
                Ok(Some(kept)) => {
                    let ghost view = kept@;
                    fields.push((entry.0.clone(), kept));
                    assert(members_view(fields@) =~= done.push((entry.0@, view)));
                },
            }
            i = i + 1;
        }
        assert(all.take(all.len() as int) =~= all);
        CreateRequest::settle(fields, member(object, "stream"))
    }

    /// The request, once `stream`, the model and the input are settled.
    fn settle(fields: Vec<(String, Json)>, stream: Option<&Json>) -> (result: Result<
        CreateRequest,
        Rejection,
    >)
        ensures
            parsed_view(result) == settled_request(
                members_view(fields@),
                crate::json::option_view(stream),
            ),
    {
        match stream {
            Some(Json::Bool(true)) => {},
            Some(_) => {
                return Err(
                    Rejection::new(
                        RejectionCode::InvalidValue,
                        Some("stream"),
                        String::from_str(
                            "QuotaMiser relays streamed responses only. Send `stream: true`.",
                        ),
                    ),
                );
            },
            None => {
                return Err(
                    Rejection::new(
                        RejectionCode::MissingParameter,
                        Some("stream"),
                        String::from_str(
                            "QuotaMiser relays streamed responses only. Send `stream: true`.",
                        ),
                    ),
                );
            },
        }
        let model: String = match member(&fields, "model") {
            Some(Json::Text(text)) => text.clone(),
            _ => {
                return Err(missing_parameter("model"));
            },
        };
        if member(&fields, "input").is_none() {
            return Err(missing_parameter("input"));
        }
        let max_output_tokens: Option<u64> = match member(&fields, "max_output_tokens") {
            Some(value) => value.as_u64(),
            None => None,
        };
        Ok(CreateRequest { fields, model, max_output_tokens })
    }

    pub fn model(&self) -> (model: &str)
        ensures
            model@ == self@.model,
    {
        self.model.as_str()
    }

    pub fn max_output_tokens(&self) -> (bound: Option<u64>)
        ensures
            bound == self@.max_output_tokens,
    {
        self.max_output_tokens
    }
}

} // verus!
