use quotamiser::config::OpenRouterModel;
use quotamiser::json::{Json, Number};
use quotamiser::ledger::Ledger;
use quotamiser::openrouter::{model_for, read_answer, AccountCheck, AnswerFault, OpenRouterError};
use quotamiser::openrouter_dispatch::{
    Attempt, AttemptAction, AttemptEvent, OpenRouterPolicy, Sent,
};
use quotamiser::rate_limit::{Headers, RateLimitGate};
use quotamiser::requests::RequestWindow;
use quotamiser::tables::Tables;
use quotamiser::tools::ToolUsage;
use quotamiser::upstream::check_base_url;

fn model(id: &str, custom: bool, namespace: bool) -> OpenRouterModel {
    OpenRouterModel {
        id: id.into(),
        function_tools: true,
        custom_tools: custom,
        namespace_tools: namespace,
        structured_outputs: true,
    }
}

fn json(text: &str) -> Json {
    Json::parse(text.as_bytes()).unwrap()
}

/// The account as its endpoints describe it; BYOK is read only with a
/// management key.
fn account(free_tier: bool, credits: &str, byok: &str, management: bool) -> AccountCheck {
    let key = json(&format!(
        r#"{{"data": {{"is_free_tier": {free_tier}, "usage": 0}}}}"#
    ));
    let credits = json(&format!(
        r#"{{"data": {{"total_credits": {credits}, "total_usage": 0}}}}"#
    ));
    let listing = json(&format!(r#"{{"data": {byok}}}"#));
    AccountCheck::read(&key, &credits, if management { Some(&listing) } else { None }).unwrap()
}

#[test]
fn a_zero_balance_free_tier_account_is_safe() {
    let check = account(true, "0.0", "[]", false);
    assert_eq!(
        check,
        AccountCheck {
            free_tier: true,
            total_credits: Number::Real("0.0".into()),
            total_usage: Number::Unsigned(0),
            byok_endpoints: None
        }
    );
    assert!(check.safe());
    assert_eq!(check.why_unsafe(), None);
}

#[test]
fn credits_on_the_account_close_the_route() {
    for credits in ["10.0", "10", "0.01"] {
        let check = account(true, credits, "[]", false);
        assert!(!check.safe());
        assert!(check.why_unsafe().unwrap().contains("credits"));
    }
    assert!(account(true, "-3", "[]", false).safe());
    assert!(account(true, "-0.5", "[]", false).safe());
}

#[test]
fn leaving_the_free_tier_closes_the_route() {
    assert!(!account(false, "0.0", "[]", false).safe());
}

#[test]
fn byok_is_checked_only_when_a_management_key_is_configured() {
    let byok = r#"[{"provider": "openai"}]"#;
    let check = account(true, "0.0", byok, false);
    assert_eq!(
        check.byok_endpoints, None,
        "not checked, not assumed absent"
    );
    assert!(check.safe());

    let check = account(true, "0.0", byok, true);
    assert_eq!(check.byok_endpoints, Some(1));
    assert!(!check.safe());
    assert!(check.why_unsafe().unwrap().contains("BYOK"));
}

#[test]
fn an_account_that_does_not_say_is_not_read() {
    let free = r#"{"data": {"is_free_tier": true}}"#;
    let none = r#"{"data": {"total_credits": 0}}"#;
    for (key, credits) in [
        ("{}", none),
        (r#"{"data": {}}"#, none),
        (r#"{"data": {"is_free_tier": "yes"}}"#, none),
        (free, "{}"),
        (free, r#"{"data": {}}"#),
        (free, r#"{"data": {"total_usage": 0}}"#),
        (free, r#"{"data": {"total_credits": null}}"#),
        (free, r#"{"data": {"total_credits": "0"}}"#),
    ] {
        assert_eq!(
            AccountCheck::read(&json(key), &json(credits), None),
            Err(AnswerFault::Unreadable),
            "{key} {credits}"
        );
    }
    let check = AccountCheck::read(&json(free), &json(none), None).unwrap();
    assert_eq!(check.total_usage, Number::Unsigned(0));
    assert!(check.safe());
}

#[test]
fn a_byok_listing_that_does_not_say_closes_the_route() {
    let key = json(r#"{"data": {"is_free_tier": true}}"#);
    let credits = json(r#"{"data": {"total_credits": 0}}"#);
    for listing in ["{}", r#"{"data": {}}"#, r#"{"data": null}"#, "[]"] {
        assert_eq!(
            AccountCheck::read(&key, &credits, Some(&json(listing))),
            Err(AnswerFault::Unreadable),
            "{listing}"
        );
    }
    let check = AccountCheck::read(&key, &credits, Some(&json(r#"{"data": []}"#))).unwrap();
    assert_eq!(check.byok_endpoints, Some(0));
    assert!(check.safe());
}

#[test]
fn credits_are_shown_by_their_value() {
    for (written, shown) in [
        ("10.0", "10"),
        ("10", "10"),
        ("0.5", "0.5"),
        ("12.50", "12.5"),
        ("1e2", "100"),
        ("1e21", "1000000000000000000000"),
        ("1.25e20", "125000000000000000000"),
        ("0.00000015", "0.00000015"),
        ("1e-7", "0.0000001"),
    ] {
        assert_eq!(
            account(true, written, "[]", false).why_unsafe(),
            Some(format!("the account holds {shown} in credits")),
            "{written}"
        );
        let value: f64 = written.parse().unwrap();
        assert_eq!(shown, value.to_string());
    }
}

#[test]
fn every_reason_is_named() {
    assert_eq!(
        account(false, "2", "[1]", true).why_unsafe().as_deref(),
        Some(
            "the key is no longer on the free tier; the account holds 2 in credits; the account has BYOK endpoints configured"
        )
    );
}

#[test]
fn a_request_carrying_custom_tools_has_no_model_to_go_to() {
    let models = vec![
        model("a/b:free", false, true),
        model("openrouter/free", false, true),
    ];
    let custom = ToolUsage {
        function: true,
        custom: true,
        namespace: true,
        additional_tools: true,
    };
    assert!(
        model_for(&models, custom, false).is_none(),
        "measured: the providers behind OpenRouter refuse custom tools"
    );
}

#[test]
fn the_first_model_that_covers_the_shape_is_chosen() {
    let models = vec![
        model("narrow/one:free", false, false),
        model("wider/two:free", false, true),
    ];
    let plain = ToolUsage {
        function: true,
        ..ToolUsage::default()
    };
    assert_eq!(
        model_for(&models, plain, false).unwrap().id,
        "narrow/one:free"
    );

    let with_namespace = ToolUsage {
        function: true,
        namespace: true,
        ..ToolUsage::default()
    };
    assert_eq!(
        model_for(&models, with_namespace, false).unwrap().id,
        "wider/two:free"
    );

    let lite = ToolUsage {
        function: true,
        namespace: true,
        additional_tools: true,
        ..ToolUsage::default()
    };
    assert_eq!(
        model_for(&models, lite, false).unwrap().id,
        "wider/two:free"
    );
}

#[test]
fn a_structured_output_needs_a_model_that_does_them() {
    let mut narrow = model("narrow/one:free", false, true);
    narrow.structured_outputs = false;
    let models = vec![narrow, model("wider/two:free", false, true)];
    assert_eq!(
        model_for(&models, ToolUsage::default(), true).unwrap().id,
        "wider/two:free"
    );
}

#[test]
fn openrouter_a_plain_http_base_url_is_refused_unless_it_is_loopback() {
    assert!(check_base_url("http://openrouter.ai/api/v1").is_err());
    assert!(check_base_url("http://127.0.0.1:1/api/v1").is_ok());
    assert!(check_base_url("https://openrouter.ai/api/v1").is_ok());
    assert_eq!(
        OpenRouterError::of_base(check_base_url("http://openrouter.ai/api/v1").unwrap_err())
            .message(),
        "the OpenRouter base URL must use https unless it is loopback: http://openrouter.ai/api/v1"
    );
}

#[test]
fn an_answer_that_cannot_be_used_says_why() {
    assert_eq!(
        read_answer(402, "no money left", 8),
        Err(AnswerFault::Status {
            status: 402,
            body: "no money".into()
        })
    );
    assert_eq!(read_answer(200, "{", 8), Err(AnswerFault::Unreadable));
    assert_eq!(read_answer(200, "[1]", 8), Ok(json("[1]")));
    assert_eq!(
        OpenRouterError::of_fault(AnswerFault::Status {
            status: 402,
            body: "x".into()
        })
        .message(),
        "OpenRouter answered with status 402: x"
    );
    assert_eq!(
        OpenRouterError::of_fault(AnswerFault::Unreadable).message(),
        "OpenRouter answered with a body this code cannot read"
    );
}

// ---------------------------------------------------------------------------
// Sending.

const POOL: &str = "openrouter:free";
const EPOCH: i64 = 20_708;

#[derive(Clone, Copy)]
enum Mode {
    Streams,
    Rejects,
    RateLimits,
    AsksForMoney,
    Unreachable,
}

struct Route {
    ledger: Ledger,
    limiter: RateLimitGate,
    policy: OpenRouterPolicy,
    mode: Mode,
    requests: usize,
    now: u64,
}

impl Route {
    fn new(mode: Mode, daily_request_limit: u64, max_in_window: u32) -> Route {
        Route {
            ledger: Ledger::open(Tables::fresh(), Ok(None)).unwrap().0,
            limiter: RateLimitGate::new(),
            policy: OpenRouterPolicy {
                pool_id: POOL.into(),
                daily_request_limit,
                window: RequestWindow {
                    max_in_window,
                    window_seconds: 60,
                },
                max_error_body_bytes: 4096,
                channel_capacity: 8,
            },
            mode,
            requests: 0,
            now: 0,
        }
    }

    /// `None` where the answer is streamed.
    fn send(&mut self, at: i64) -> Option<Sent> {
        let mut state = Attempt::Starting;
        let mut event = AttemptEvent::HeldBack {
            rate_limited: self.limiter.closed_for(self.now),
        };
        loop {
            let (next, action) = state.step(event).expect("the event answers the action");
            state = next;
            event = match action {
                AttemptAction::TakeSlot => AttemptEvent::Slot(
                    self.ledger
                        .take_open_slot(
                            &self.policy.pool_id,
                            EPOCH,
                            self.policy.daily_request_limit,
                            self.policy.window,
                            at,
                        )
                        .map_err(|error| error.message()),
                ),
                AttemptAction::Send => match self.mode {
                    Mode::Unreachable => AttemptEvent::SendFailed {
                        detail: "connection refused".into(),
                    },
                    mode => {
                        self.requests += 1;
                        let status = match mode {
                            Mode::Rejects => 400,
                            Mode::RateLimits => 429,
                            Mode::AsksForMoney => 402,
                            _ => 200,
                        };
                        AttemptEvent::Answered { status }
                    }
                },
                AttemptAction::NoteRateLimited => {
                    let headers = Headers { entries: vec![] };
                    self.limiter.record_rate_limited(&headers, self.now);
                    AttemptEvent::Noted
                }
                AttemptAction::CloseProvider { status } => AttemptEvent::Closed(
                    self.ledger
                        .close_provider(&self.policy.pool_id, status, at)
                        .map_err(|error| error.message()),
                ),
                AttemptAction::ReadBody => AttemptEvent::Body(
                    br#"{"error":{"message":"expected function"}}"#.to_vec(),
                ),
                AttemptAction::Stream => return None,
                AttemptAction::Finish(sent) => return Some(sent),
            };
        }
    }

    fn used(&self) -> i64 {
        self.ledger
            .request_counts(POOL, EPOCH)
            .unwrap()
            .map_or(0, |(used, _)| used)
    }
}

#[test]
fn a_request_for_payment_closes_the_route_until_it_is_cleared() {
    let mut route = Route::new(Mode::AsksForMoney, 50, 20);
    assert!(matches!(
        route.send(1_000),
        Some(Sent::Refused { status: 402, .. })
    ));
    assert_eq!(route.send(1_001), Some(Sent::Closed));
    assert_eq!((route.requests, route.used()), (1, 1));
    route.ledger.clear_latches(POOL, "someone", 1_002).unwrap();
    route.mode = Mode::Streams;
    assert!(route.send(1_003).is_none(), "expected a stream");
    assert_eq!((route.requests, route.used()), (2, 2));
}

#[test]
fn a_route_that_cannot_be_closed_durably_fails() {
    let (state, action) = Attempt::Sending
        .step(AttemptEvent::Answered { status: 308 })
        .unwrap();
    assert!(matches!(action, AttemptAction::CloseProvider { status: 308 }));
    let (_, action) = state
        .step(AttemptEvent::Closed(Err("disk full".into())))
        .unwrap();
    assert!(matches!(
        action,
        AttemptAction::Finish(Sent::Failed(detail)) if detail == "disk full"
    ));
}

#[test]
fn a_granted_slot_sends_and_relays() {
    let mut route = Route::new(Mode::Streams, 50, 20);
    assert!(route.send(1_000).is_none(), "expected a stream");
    assert_eq!(route.requests, 1);
    assert_eq!(route.used(), 1);
}

#[test]
fn a_refusal_still_spends_the_slot() {
    let mut route = Route::new(Mode::Rejects, 50, 20);
    let Some(Sent::Refused { status, body }) = route.send(1_000) else {
        panic!("expected a refusal")
    };
    assert_eq!(status, 400);
    assert!(String::from_utf8_lossy(&body).contains("expected function"));
    assert_eq!(
        route.used(),
        1,
        "a failed request spends one of the fifty too"
    );
}

#[test]
fn the_day_runs_out_without_sending() {
    let mut route = Route::new(Mode::Streams, 2, 20);
    for at in [1_000, 1_001] {
        assert!(route.send(at).is_none());
    }
    let Some(Sent::Exhausted { used: spent, limit }) = route.send(1_002) else {
        panic!("expected the day to be spent")
    };
    assert_eq!((spent, limit), (2, 2));
    assert_eq!(
        route.requests, 2,
        "nothing is sent once the allowance is gone"
    );
}

#[test]
fn the_short_window_holds_back_without_spending() {
    let mut route = Route::new(Mode::Streams, 50, 2);
    for _ in 0..2 {
        assert!(route.send(1_000).is_none());
    }
    let Some(Sent::HeldBack { retry_after }) = route.send(1_010) else {
        panic!("expected to be held back")
    };
    assert_eq!(retry_after, 50_000_000_000);
    assert_eq!(route.requests, 2);
    assert_eq!(
        route.used(),
        2,
        "being held back by the window spends nothing"
    );
}

#[test]
fn a_transport_failure_spends_the_slot_and_says_so() {
    let mut route = Route::new(Mode::Unreachable, 50, 20);
    assert!(matches!(route.send(1_000), Some(Sent::Failed(_))));
    assert_eq!(
        route.used(),
        1,
        "the request may have reached the provider; the slot is not returned"
    );
}

#[test]
fn a_rate_limit_holds_the_route_back_without_spending() {
    let mut route = Route::new(Mode::RateLimits, 50, 20);
    assert!(matches!(
        route.send(1_000),
        Some(Sent::Refused { status: 429, .. })
    ));
    assert_eq!(route.used(), 1);
    assert!(matches!(route.send(1_000), Some(Sent::HeldBack { .. })));
    assert_eq!(route.used(), 1);
    assert_eq!(route.requests, 1);
}
