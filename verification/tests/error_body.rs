use quotamiser::error_body::{invalid_request_body, openai_error_body, usage_limit_reached_body};
use quotamiser::json::{Json, Number};

fn error(body: &Json) -> &Json {
    body.get("error").unwrap()
}

fn text<'a>(body: &'a Json, name: &str) -> Option<&'a str> {
    error(body).text_of(name)
}

#[test]
fn a_refusal_names_the_parameter_and_code() {
    let body = invalid_request_body("no", Some("tools[0].type"), "hosted_tool_unsupported");
    assert_eq!(text(&body, "type"), Some("invalid_request_error"));
    assert_eq!(text(&body, "param"), Some("tools[0].type"));
    assert_eq!(text(&body, "code"), Some("hosted_tool_unsupported"));
    assert_eq!(text(&body, "message"), Some("no"));
}

#[test]
fn a_usage_limit_carries_the_reset_time() {
    let body = usage_limit_reached_body("wait", Some(1_789_171_200));
    assert_eq!(text(&body, "type"), Some("usage_limit_reached"));
    assert_eq!(
        error(&body).get("resets_at"),
        Some(&Json::Number(Number::Unsigned(1_789_171_200)))
    );
    assert_eq!(
        error(&usage_limit_reached_body("wait", None)).get("resets_at"),
        Some(&Json::Null)
    );
}

#[test]
fn the_shape_matches_openai() {
    let body = openai_error_body(400, "bad");
    assert_eq!(text(&body, "type"), Some("invalid_request_error"));
    assert_eq!(text(&body, "message"), Some("bad"));
    assert!(error(&body).get("param").is_some());
    assert!(error(&body).get("code").is_some());
    assert_eq!(
        text(&openai_error_body(402, "x"), "type"),
        Some("insufficient_quota")
    );
    assert_eq!(
        text(&openai_error_body(502, "x"), "type"),
        Some("api_error")
    );
}

#[test]
fn each_status_has_its_type() {
    let expected = [
        (401, "authentication_error"),
        (403, "authentication_error"),
        (404, "not_found_error"),
        (409, "conflict_error"),
        (429, "rate_limit_error"),
        (499, "invalid_request_error"),
        (500, "api_error"),
        (302, "api_error"),
    ];
    for (status, kind) in expected {
        assert_eq!(text(&openai_error_body(status, "x"), "type"), Some(kind));
    }
}
