//! OpenAI-shaped error bodies.
use vstd::prelude::*;
use vstd::string::*;

use crate::json::{lemma_object_view, members_view, Json, JsonView, Number, NumberView};
use crate::text::str_view;

verus! {

/// The error `type` that OpenAI uses with a status.
pub open spec fn error_type(status: u16) -> Seq<char> {
    if status == 401 || status == 403 {
        "authentication_error"@
    } else if status == 402 {
        "insufficient_quota"@
    } else if status == 404 {
        "not_found_error"@
    } else if status == 409 {
        "conflict_error"@
    } else if status == 429 {
        "rate_limit_error"@
    } else if 400 <= status <= 499 {
        "invalid_request_error"@
    } else {
        "api_error"@
    }
}

/// A text, or null.
pub open spec fn text_or_null(text: Option<Seq<char>>) -> JsonView {
    match text {
        Some(s) => JsonView::Text(s),
        None => JsonView::Null,
    }
}

/// An integer, or null.
pub open spec fn integer_or_null(n: Option<i64>) -> JsonView {
    match n {
        Some(n) => if n < 0 {
            JsonView::Number(NumberView::Negative(n))
        } else {
            JsonView::Number(NumberView::Unsigned(n as u64))
        },
        None => JsonView::Null,
    }
}

/// An error body around its fields.
pub open spec fn error_object(fields: Seq<(Seq<char>, JsonView)>) -> JsonView {
    JsonView::Object(seq![("error"@, JsonView::Object(fields))])
}

/// The four fields every error has.
pub open spec fn error_fields(
    message: Seq<char>,
    kind: Seq<char>,
    param: JsonView,
    code: JsonView,
) -> Seq<(Seq<char>, JsonView)> {
    seq![
        ("message"@, JsonView::Text(message)),
        ("type"@, JsonView::Text(kind)),
        ("param"@, param),
        ("code"@, code),
    ]
}

pub open spec fn openai_error_view(status: u16, message: Seq<char>) -> JsonView {
    error_object(error_fields(message, error_type(status), JsonView::Null, JsonView::Null))
}

pub open spec fn invalid_request_view(
    message: Seq<char>,
    param: Option<Seq<char>>,
    code: Seq<char>,
) -> JsonView {
    error_object(
        error_fields(
            message,
            "invalid_request_error"@,
            text_or_null(param),
            JsonView::Text(code),
        ),
    )
}

pub open spec fn usage_limit_reached_view(message: Seq<char>, resets_at: Option<i64>) -> JsonView {
    error_object(
        error_fields(
            message,
            "usage_limit_reached"@,
            JsonView::Null,
            JsonView::Text("usage_limit_reached"@),
        ).push(("resets_at"@, integer_or_null(resets_at))),
    )
}

/// The fields in an object under `error`.
fn error_of(fields: Vec<(String, Json)>) -> (body: Json)
    ensures
        body@ == error_object(members_view(fields@)),
{
    proof {
        lemma_object_view(fields);
    }
    let inner = Json::Object(fields);
    let ghost inner_view = inner@;
    let mut outer: Vec<(String, Json)> = Vec::new();
    outer.push((String::from_str("error"), inner));
    proof {
        assert(members_view(outer@) =~= seq![("error"@, inner_view)]);
        lemma_object_view(outer);
    }
    Json::Object(outer)
}

/// The four fields every error has.
fn fields_of(message: &str, kind: &str, param: Json, code: Json) -> (fields: Vec<(String, Json)>)
    ensures
        members_view(fields@) == error_fields(message@, kind@, param@, code@),
{
    let ghost expected = error_fields(message@, kind@, param@, code@);
    let mut fields: Vec<(String, Json)> = Vec::new();
    fields.push((String::from_str("message"), Json::text(message)));
    fields.push((String::from_str("type"), Json::text(kind)));
    fields.push((String::from_str("param"), param));
    fields.push((String::from_str("code"), code));
    assert(members_view(fields@) =~= expected);
    fields
}

/// Maps the HTTP status onto OpenAI's error `type` vocabulary, so that client
/// SDKs handle the error the way they would handle OpenAI's own.
pub fn openai_error_body(status: u16, message: &str) -> (body: Json)
    ensures
        body@ == openai_error_view(status, message@),
{
    let kind: &str = if status == 401 || status == 403 {
        "authentication_error"
    } else if status == 402 {
        "insufficient_quota"
    } else if status == 404 {
        "not_found_error"
    } else if status == 409 {
        "conflict_error"
    } else if status == 429 {
        "rate_limit_error"
    } else if 400 <= status && status <= 499 {
        "invalid_request_error"
    } else {
        "api_error"
    };
    error_of(fields_of(message, kind, Json::Null, Json::Null))
}

/// A 400 for a request QuotaMiser will not send.
///
/// Returned as 400 rather than 403 or 422: Codex shows a 400's message and
/// stops, but retries a 403 or 422 as an unexpected status, re-sending a
/// request that can only be refused again.
pub fn invalid_request_body(message: &str, param: Option<&str>, code: &str) -> (body: Json)
    ensures
        body@ == invalid_request_view(message@, str_view(param), code@),
{
    let param_value = match param {
        Some(path) => Json::text(path),
        None => Json::Null,
    };
    error_of(fields_of(message, "invalid_request_error", param_value, Json::text(code)))
}

/// A 429 telling the client that nothing can serve it until `resets_at`
/// (Unix seconds), when that is known.
///
/// Codex reads `type: "usage_limit_reached"` as a usage limit, which it does
/// not retry, and shows the reset time. A plain 429 would be retried.
pub fn usage_limit_reached_body(message: &str, resets_at: Option<i64>) -> (body: Json)
    ensures
        body@ == usage_limit_reached_view(message@, resets_at),
{
    let code = Json::text("usage_limit_reached");
    let mut fields = fields_of(message, "usage_limit_reached", Json::Null, code);
    let ghost four = members_view(fields@);
    let reset = match resets_at {
        Some(n) => {
            if n < 0 {
                Json::Number(Number::Negative(n))
            } else {
                Json::Number(Number::Unsigned(n as u64))
            }
        },
        None => Json::Null,
    };
    fields.push((String::from_str("resets_at"), reset));
    assert(members_view(fields@) =~= four.push(("resets_at"@, integer_or_null(resets_at))));
    error_of(fields)
}

} // verus!
