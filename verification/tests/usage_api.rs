use quotamiser::json::Json;
use quotamiser::openrouter::AnswerFault;
use quotamiser::upstream::check_base_url;
use quotamiser::usage_api::{
    add_capped, DayReading, DayStep, DayUsage, UsageApiError, MAX_PAGES,
};

fn bucket(results: &str) -> String {
    format!(
        r#"{{"data": [{{"start_time": 1, "end_time": 2, "results": {results}}}], "has_more": false, "next_page": null}}"#
    )
}

fn day(body: &str) -> DayUsage {
    match DayReading::new(1).take(200, body).unwrap() {
        DayStep::Done(usage) => usage,
        DayStep::More(_) => panic!("expected one page"),
    }
}

fn tokens(usage: &DayUsage, model: &str) -> u64 {
    usage
        .tokens_by_model
        .iter()
        .find(|(name, _)| name == model)
        .unwrap()
        .1
}

#[test]
fn a_day_is_summed_by_model() {
    let usage = day(&bucket(
        r#"[
        {"model": "gpt-5.6-terra", "service_tier": "incentivized-tier", "num_model_requests": 9, "input_tokens": 2158, "output_tokens": 100},
        {"model": "gpt-5.6-sol", "service_tier": "incentivized-tier", "num_model_requests": 1, "input_tokens": 10, "output_tokens": 5}
    ]"#,
    ));
    assert_eq!(tokens(&usage, "gpt-5.6-terra"), 2258);
    assert_eq!(tokens(&usage, "gpt-5.6-sol"), 15);
    assert_eq!(usage.requests_outside_the_grant, 0);
    assert_eq!(usage.requests_of_unknown_tier, 0);
}

#[test]
fn traffic_outside_the_grant_is_counted_apart_from_unknown_tiers() {
    let usage = day(&bucket(
        r#"[
        {"model": "gpt-5.6-terra", "service_tier": "default", "num_model_requests": 3, "input_tokens": 100, "output_tokens": 10},
        {"model": "gpt-5.6-terra", "service_tier": null, "num_model_requests": 2, "input_tokens": 5, "output_tokens": 1}
    ]"#,
    ));
    assert_eq!(usage.requests_outside_the_grant, 3);
    assert_eq!(usage.requests_of_unknown_tier, 2);
    assert_eq!(tokens(&usage, "gpt-5.6-terra"), 116);
}

#[test]
fn a_failed_answer_is_an_error_not_an_empty_day() {
    let error = DayReading::new(1).take(401, "no").expect_err("an error");
    let error = UsageApiError::of_fault(error);
    assert!(matches!(error, UsageApiError::Status { status: 401, .. }));
    assert_eq!(
        error.message(),
        "the usage API answered with status 401: no"
    );
    for body in ["{}", r#"{"data": 1}"#, "nope"] {
        assert!(matches!(
            DayReading::new(1).take(200, body),
            Err(AnswerFault::Unreadable)
        ));
    }
}

#[test]
fn usage_api_a_plain_http_base_url_is_refused_unless_it_is_loopback() {
    assert!(check_base_url("http://example.com/v1").is_err());
    assert!(check_base_url("http://127.0.0.1:1/v1").is_ok());
    assert!(check_base_url("https://api.openai.com/v1").is_ok());
    assert_eq!(
        UsageApiError::of_base(check_base_url("nope").unwrap_err()).message(),
        "the usage base URL is invalid: nope"
    );
}

#[test]
fn a_day_is_asked_for_from_its_start_to_its_end() {
    assert_eq!(
        DayReading::new(1).url("http://x/v1"),
        "http://x/v1/organization/usage/completions?start_time=86400&end_time=172800&bucket_width=1d&group_by=model&group_by=service_tier&limit=31"
    );
}

#[test]
fn pages_are_followed_and_added_up() {
    let page = |cursor: &str| {
        Json::parse(
            format!(
                r#"{{"data": [{{"results": [{{"model": "m", "input_tokens": 1}}]}}, {{}}], "has_more": true, "next_page": "{cursor}"}}"#
            )
            .as_bytes(),
        )
        .unwrap()
    };
    let mut reading = DayReading::new(2);
    for n in 1..MAX_PAGES {
        let DayStep::More(next) = reading.take_page(&page(&format!("c{n}"))).unwrap() else {
            panic!("expected another page")
        };
        assert!(next.url("").ends_with(&format!("&page=c{n}")));
        reading = next;
    }
    let DayStep::Done(usage) = reading.take_page(&page("last")).unwrap() else {
        panic!("expected the pages to end")
    };
    assert_eq!(usage.tokens_by_model, [("m".to_string(), 20)]);
}

#[test]
fn a_cursor_without_more_to_come_is_not_followed() {
    let body = r#"{"data": [], "has_more": false, "next_page": "c"}"#;
    assert_eq!(day(body).tokens_by_model, []);
}

#[test]
fn sums_stop_at_the_largest_number() {
    assert_eq!(add_capped(u64::MAX, 1), u64::MAX);
    assert_eq!(add_capped(2, 3), 5);
}
