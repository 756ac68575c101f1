use quotamiser::admission::{
    AdmissionPolicy, Admitter, Catalog, CatalogEntry, Refused,
};
use quotamiser::config::OpenRouterModel;
use quotamiser::dispatch::Head;
use quotamiser::epoch::{ClosedReason, Window};
use quotamiser::json::Json;
use quotamiser::ledger::{Admission, Refusal, ReservationId};
use quotamiser::liability::{EstimateError, EstimatorPolicy, ModelSpec};
use quotamiser::openrouter_dispatch::Sent;
use quotamiser::replies::{
    describe_refusal, head_response, list_models, refusal_response, Reply, ReplyBody,
    MAX_BODY_BYTES,
};
use quotamiser::server::{Exchange, ExchangeAction, ExchangeEvent, Server};
use quotamiser::status_policy::decide;
use quotamiser::trust::{TrustVerdict, UnknownReason};

const NOW: i64 = 20_707 * 86_400 + 3_600;
const END_OF_DAY: u64 = 20_708 * 86_400;

fn catalog() -> Catalog {
    Catalog {
        models: vec![(
            "gpt-5.6-terra".to_string(),
            CatalogEntry {
                pool_id: "openai:small".into(),
                spec: ModelSpec {
                    max_output_tokens: 128_000,
                    byte_level_encoding_known: true,
                },
            },
        )],
    }
}

fn server() -> Server {
    Server {
        admitter: Admitter::new(
            catalog(),
            AdmissionPolicy {
                estimator: EstimatorPolicy::default(),
                accounting_rev: 1,
                required_safety_inputs: vec!["data_sharing".into()],
            },
        ),
        route: vec![OpenRouterModel {
            id: "nex-agi/nex-n2.5-pro:free".into(),
            function_tools: true,
            custom_tools: false,
            namespace_tools: true,
            structured_outputs: false,
        }],
    }
}

const PLAIN: &str = r#"{"model": "gpt-5.6-terra", "input": "hello", "stream": true}"#;
const CUSTOM: &str = r#"{"model": "gpt-5.6-terra", "input": "hello", "stream": true,
    "tools": [{"type": "custom", "name": "apply_patch"}]}"#;

fn arrived(body: &str) -> ExchangeEvent {
    ExchangeEvent::Arrived {
        upgrade: false,
        body: body.as_bytes().to_vec(),
        now: Some(NOW),
    }
}

fn step(state: Exchange, event: ExchangeEvent) -> (Exchange, ExchangeAction) {
    server()
        .step(state, event)
        .expect("the event answers the action")
}

fn reply(action: ExchangeAction) -> Reply {
    match action {
        ExchangeAction::Respond(reply) => reply,
        other => panic!("expected an answer, got {other:?}"),
    }
}

fn error(reply: &Reply) -> &Json {
    match &reply.body {
        ReplyBody::Json(body) => body.get("error").unwrap(),
        ReplyBody::Raw(_) => panic!("expected a JSON body"),
    }
}

fn message(reply: &Reply) -> &str {
    error(reply).text_of("message").unwrap()
}

/// Serves up to the reservation.
fn reserving(body: &str) -> Exchange {
    let (state, action) = step(Exchange::Starting, arrived(body));
    assert!(matches!(action, ExchangeAction::ReadWindow));
    let (state, action) = step(state, ExchangeEvent::Window(Ok(Window::Open)));
    match action {
        ExchangeAction::Reserve { now, .. } => {
            assert_eq!(now, NOW);
            state
        }
        ExchangeAction::Count { .. } => {
            let (state, action) = step(state, ExchangeEvent::Counted(Ok(700)));
            let ExchangeAction::Reserve { request, .. } = action else {
                panic!("expected a reservation")
            };
            assert_eq!(request.liability, 700 + 128_000);
            state
        }
        other => panic!("expected a reservation, got {other:?}"),
    }
}

fn short() -> Result<Admission, String> {
    Ok(Admission::Refused(Refusal::InsufficientQuota {
        remaining: 10,
        liability: 2_069,
    }))
}

#[test]
fn an_upgrade_is_answered_426() {
    let event = ExchangeEvent::Arrived {
        upgrade: true,
        body: vec![],
        now: None,
    };
    let reply = reply(step(Exchange::Starting, event).1);
    assert_eq!(reply.status, 426);
    assert_eq!(
        message(&reply),
        "QuotaMiser serves this endpoint over HTTP only."
    );
}

#[test]
fn what_the_allowlist_refuses_is_a_400() {
    let reply = reply(
        step(
            Exchange::Starting,
            arrived(r#"{"model": "m", "input": "x", "stream": true, "user": "u"}"#),
        )
        .1,
    );
    assert_eq!(reply.status, 400);
    assert_eq!(error(&reply).text_of("param"), Some("user"));
}

#[test]
fn without_trusted_time_nothing_is_served() {
    let event = ExchangeEvent::Arrived {
        upgrade: false,
        body: PLAIN.as_bytes().to_vec(),
        now: None,
    };
    let reply = reply(step(Exchange::Starting, event).1);
    assert_eq!(reply.status, 429);
    assert_eq!(error(&reply).text_of("type"), Some("usage_limit_reached"));
    assert_eq!(error(&reply).get("resets_at"), Some(&Json::Null));
}

#[test]
fn a_request_is_admitted_dispatched_and_attributed() {
    let state = reserving(PLAIN);
    let (state, action) = step(
        state,
        ExchangeEvent::Reserved {
            answer: Ok(Admission::Reserved(ReservationId(9))),
            route_open: true,
        },
    );
    let ExchangeAction::Dispatch(permit) = action else {
        panic!("expected a dispatch")
    };
    assert_eq!(permit.reservation(), ReservationId(9));
    let (state, action) = step(state, ExchangeEvent::Streaming);
    assert!(matches!(state, Exchange::Done));
    let ExchangeAction::Stream(who) = action else {
        panic!("expected a stream")
    };
    assert_eq!((who.provider, who.model.as_str()), ("openai", "gpt-5.6-terra"));
}

#[test]
fn a_due_day_is_opened_once() {
    let (state, _) = step(Exchange::Starting, arrived(PLAIN));
    let due = || ExchangeEvent::Window(Ok(Window::RolloverDue { epoch: 20_708 }));
    let (state, action) = step(state, due());
    assert!(matches!(action, ExchangeAction::OpenEpoch { epoch: 20_708 }));
    let (state, action) = step(state, ExchangeEvent::Opened(Ok(())));
    assert!(matches!(action, ExchangeAction::ReadWindow));
    let reply = reply(step(state, due()).1);
    assert_eq!(reply.status, 429);
    assert_eq!(message(&reply), "The ledger is still opening epoch 20708.");
}

#[test]
fn a_ledger_that_is_out_of_reach_is_a_503() {
    let (state, _) = step(Exchange::Starting, arrived(PLAIN));
    let reply = reply(step(state, ExchangeEvent::Window(Err("locked".into()))).1);
    assert_eq!(reply.status, 503);
    assert_eq!(message(&reply), "locked");
    assert_eq!(error(&reply).text_of("type"), Some("api_error"));
}

#[test]
fn insufficient_quota_is_routed_to_openrouter() {
    let event = || ExchangeEvent::Reserved {
        answer: short(),
        route_open: true,
    };
    let (state, action) = step(reserving(PLAIN), event());
    let ExchangeAction::Route { model, body, epoch } = action else {
        panic!("expected a route")
    };
    assert_eq!(model, "nex-agi/nex-n2.5-pro:free");
    assert_eq!(epoch, 20_707);
    let sent = Json::parse(&body).unwrap();
    assert_eq!(sent.text_of("model"), Some("nex-agi/nex-n2.5-pro:free"));
    assert_eq!(sent.get("store"), Some(&Json::Bool(false)));
    let (_, action) = step(state, ExchangeEvent::Streaming);
    let ExchangeAction::Stream(who) = action else {
        panic!("expected a stream")
    };
    assert_eq!(
        (who.provider, who.model.as_str()),
        ("openrouter", "nex-agi/nex-n2.5-pro:free")
    );

    let outcomes = [
        (
            Sent::Refused {
                status: 400,
                body: b"no".to_vec(),
            },
            400,
        ),
        (Sent::Exhausted { used: 50, limit: 50 }, 429),
        (Sent::Closed, 429),
        (
            Sent::HeldBack {
                retry_after: 50_000_000_000,
            },
            429,
        ),
        (Sent::Failed("reset".into()), 503),
    ];
    for (sent, status) in outcomes {
        let (state, _) = step(reserving(PLAIN), event());
        let held = matches!(sent, Sent::HeldBack { .. });
        let passed_on = matches!(sent, Sent::Refused { .. });
        let reply = reply(step(state, ExchangeEvent::Routed(sent)).1);
        assert_eq!(reply.status, status);
        assert_eq!(reply.retry_after, if held { Some(50) } else { None });
        assert_eq!(reply.attribution.is_some(), passed_on);
    }
}

#[test]
fn what_openrouter_cannot_take_stays_a_429() {
    for (body, route_open) in [(CUSTOM, true), (PLAIN, false)] {
        let event = ExchangeEvent::Reserved {
            answer: short(),
            route_open,
        };
        let reply = reply(step(reserving(body), event).1);
        assert_eq!(reply.status, 429);
        assert_eq!(
            message(&reply),
            "This request could consume up to 2069 tokens and only 10 remain in today's free grant. Nothing was sent."
        );
        assert_eq!(
            error(&reply).get("resets_at").unwrap().as_u64(),
            Some(END_OF_DAY)
        );
    }
}

#[test]
fn other_refusals_are_not_routed_on() {
    let event = ExchangeEvent::Reserved {
        answer: Ok(Admission::Refused(Refusal::PoolNotOpen {
            pool_id: "openai:small".into(),
            epoch: 3,
        })),
        route_open: true,
    };
    let reply = reply(step(reserving(PLAIN), event).1);
    assert_eq!(message(&reply), "Pool openai:small is not open for epoch 3.");
}

#[test]
fn each_refusal_has_its_answer() {
    let cases = [
        (
            Refused::UnknownModel("gpt-9".into()),
            400,
            "`gpt-9` is not a model QuotaMiser is configured to serve.",
        ),
        (
            Refused::WindowClosed(ClosedReason::NearBoundary),
            429,
            "QuotaMiser is not spending quota right now (NearBoundary): the day boundary is too close to tell which day this would be charged to.",
        ),
        (
            Refused::Ledger(Refusal::SafetyInputMissing("data_sharing".into())),
            429,
            "QuotaMiser is not admitting requests: SafetyInputMissing(\"data_sharing\"). This needs an operator, not a retry.",
        ),
        (
            Refused::Ledger(Refusal::TooManyInFlight { open: 32 }),
            429,
            "32 earlier requests are still open, as many as there may be. Nothing was sent.",
        ),
        (
            Refused::InputNotCounted("why".into()),
            503,
            "The input could not be counted, so no upper bound on its cost exists: why",
        ),
        (
            Refused::Estimate(EstimateError::ZeroOutputCap),
            503,
            "an output cap of zero admits no response",
        ),
        (Refused::LedgerUnavailable("gone".into()), 503, "gone"),
    ];
    for (refused, status, text) in cases {
        let reply = refusal_response(&refused, NOW);
        assert_eq!(reply.status, status, "{text}");
        assert_eq!(message(&reply), text);
    }
}

#[test]
fn refusals_are_spelled_out_as_they_are_debugged() {
    let refusals = [
        Refusal::Untrusted(TrustVerdict::Unknown(UnknownReason::UncleanShutdown)),
        Refusal::Untrusted(TrustVerdict::Trusted),
        Refusal::Latched {
            scope: "model:sol".into(),
            reason: "say \"why\"\n\t\\ it's\r\0".into(),
        },
        Refusal::SafetyInputExpired("data_sharing".into()),
        Refusal::SafetyBudgetExhausted {
            key: "k".into(),
            remaining: -3,
        },
        Refusal::PoolNotOpen {
            pool_id: "p".into(),
            epoch: i64::MIN,
        },
        Refusal::InsufficientQuota {
            remaining: 0,
            liability: i64::MAX,
        },
        Refusal::TooManyInFlight { open: 32 },
    ];
    for refusal in refusals {
        assert_eq!(describe_refusal(&refusal), format!("{refusal:?}"));
    }
}

#[test]
fn each_head_has_its_answer() {
    let refused = head_response(
        Head::Refused {
            status: 400,
            decision: decide(400),
            body: b"bad".to_vec(),
        },
        "m",
        NOW,
    );
    assert_eq!(refused.status, 400);
    assert_eq!(refused.body, ReplyBody::Raw(b"bad".to_vec()));
    let who = refused.attribution.unwrap();
    assert_eq!((who.provider, who.model.as_str()), ("openai", "m"));

    let held = head_response(Head::RateLimited { retry_after: 1 }, "m", NOW);
    assert_eq!(held.status, 429);
    assert_eq!(held.retry_after, Some(1));
    assert_eq!(
        error(&held).get("resets_at").unwrap().as_i64(),
        Some(NOW + 1)
    );
    let cooling = head_response(
        Head::CoolingDown {
            retry_after: 29_999_999_999,
        },
        "m",
        NOW,
    );
    assert_eq!(cooling.retry_after, Some(29));

    let unsent = head_response(Head::NotSent("why".into()), "m", NOW);
    assert_eq!((unsent.status, message(&unsent)), (503, "why"));
    let unknown = head_response(Head::OutcomeUnknown("how".into()), "m", NOW);
    assert_eq!((unknown.status, message(&unknown)), (503, "how"));
}

#[test]
fn the_models_are_listed() {
    assert_eq!(
        list_models(&catalog()).to_bytes(),
        br#"{"object":"list","data":[{"id":"gpt-5.6-terra","object":"model","owned_by":"openai"}]}"#
    );
    assert_eq!(MAX_BODY_BYTES, 64 * 1024 * 1024);
}

#[test]
fn an_answer_to_nothing_is_not_a_step() {
    assert!(server()
        .step(Exchange::Done, ExchangeEvent::Streaming)
        .is_none());
}
