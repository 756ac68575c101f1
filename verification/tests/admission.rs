use quotamiser::admission::{
    clip, digest, read_count, read_counter, AdmissionPolicy, Admitter, AdmitStep, Catalog,
    CatalogEntry, Decision, Refused,
};
use quotamiser::epoch::{ClosedReason, Window};
use quotamiser::json::Json;
use quotamiser::ledger::{Ledger, Refusal};
use quotamiser::liability::{EstimateError, EstimatorPolicy, ModelSpec};
use quotamiser::request::CreateRequest;
use quotamiser::state::State;
use quotamiser::tables::Tables;

const POOL: &str = "openai:small";
const GRANT: u64 = 300_000;
const COUNT: u64 = 1_000;

fn ledger(grant: u64) -> Ledger {
    let (mut ledger, _) = Ledger::open(Tables::fresh(), Ok(None)).unwrap();
    ledger.rollover(1, &[(POOL.into(), grant)]).unwrap();
    ledger.adopt_recovered_consumption(&[], None).unwrap();
    ledger
        .revalidate_safety_input("data_sharing", 0, i64::MAX / 2, GRANT)
        .unwrap();
    ledger
}

fn admitter(byte_level_encoding_known: bool) -> Admitter {
    Admitter::new(
        Catalog {
            models: vec![(
                "gpt-5.6-terra".to_string(),
                CatalogEntry {
                    pool_id: POOL.into(),
                    spec: ModelSpec {
                        max_output_tokens: 128_000,
                        byte_level_encoding_known,
                    },
                },
            )],
        },
        AdmissionPolicy {
            estimator: EstimatorPolicy::default(),
            accounting_rev: 1,
            required_safety_inputs: vec!["data_sharing".into()],
        },
    )
}

fn parse(text: &str) -> CreateRequest {
    CreateRequest::parse(text.as_bytes()).unwrap()
}

fn flat(max_output: u64) -> CreateRequest {
    parse(&format!(
        r#"{{"model": "gpt-5.6-terra", "input": "hello", "stream": true, "max_output_tokens": {max_output}}}"#
    ))
}

/// Two bodies to count: the request, and its additional_tools item.
fn lite() -> CreateRequest {
    parse(
        r#"{
        "model": "gpt-5.6-terra",
        "instructions": "",
        "stream": true,
        "max_output_tokens": 2000,
        "input": [
            {"type": "additional_tools", "role": "developer", "tools": [
                {"type": "function", "name": "exec", "parameters": {"type": "object"}}
            ]},
            {"type": "message", "role": "user", "content": [{"type": "input_text", "text": "run ls"}]}
        ]
    }"#,
    )
}

/// A provider that counts every body the same, or fails.
struct Counter {
    calls: usize,
    fails: bool,
}

impl Counter {
    fn new(fails: bool) -> Counter {
        Counter { calls: 0, fails }
    }

    fn count(&mut self) -> Result<u64, String> {
        self.calls += 1;
        if self.fails {
            read_counter(
                false,
                "500 Internal Server Error",
                r#"{"error":{"message":"no"}}"#,
            )
        } else {
            read_counter(true, "200 OK", &format!(r#"{{"input_tokens":{COUNT}}}"#))
        }
    }
}

fn decide(
    admitter: &Admitter,
    ledger: &mut Ledger,
    counter: &mut Counter,
    request: &CreateRequest,
    window: Window,
) -> Decision {
    let mut step = admitter.begin(request, window);
    loop {
        step = match step {
            AdmitStep::Refuse(refused) => return Decision::Refused(refused),
            AdmitStep::Count(counting) => {
                let answer = counter.count();
                admitter.counted(request, counting, answer)
            }
            AdmitStep::Reserve(proposal) => {
                let answer = ledger
                    .reserve(&proposal.request, 10)
                    .map_err(|error| error.message());
                return admitter.reserved(proposal.body, answer);
            }
        };
    }
}

fn reserved_liability(ledger: &Ledger) -> i64 {
    ledger.counters(POOL, 1).unwrap().unwrap().reserved
}

#[test]
fn a_flat_request_is_reserved_from_the_structural_bound_without_counting() {
    let mut ledger = ledger(GRANT);
    let mut counter = Counter::new(false);
    let request = flat(2_000);
    let Decision::Admitted(permit) = decide(
        &admitter(true),
        &mut ledger,
        &mut counter,
        &request,
        Window::Open,
    ) else {
        panic!("expected an admission")
    };
    assert_eq!(counter.calls, 0, "the structural bound needs no call");
    // "hello" is five bytes, with one node's framing allowance, plus the cap.
    assert_eq!(reserved_liability(&ledger), 5 + 64 + 2_000);
    assert_eq!(
        ledger.reservation_state(permit.reservation()),
        Ok(State::Reserved)
    );
    let (_, body, accounting_rev) = permit.into_parts();
    assert_eq!(body, request.openai_body());
    assert_eq!(accounting_rev, 1);
}

#[test]
fn a_structured_request_reserves_the_sum_of_every_counted_body() {
    let mut ledger = ledger(GRANT);
    let mut counter = Counter::new(false);
    let request = lite();
    assert_eq!(request.input_count_bodies().len(), 2);
    let Decision::Admitted(_) = decide(
        &admitter(false),
        &mut ledger,
        &mut counter,
        &request,
        Window::Open,
    ) else {
        panic!("expected an admission")
    };
    assert_eq!(counter.calls, 2);
    assert_eq!(
        reserved_liability(&ledger),
        i64::try_from(COUNT * 2 + 2_000).unwrap(),
        "both counts are reserved, not just the request's own"
    );
}

#[test]
fn an_unknown_model_is_refused_before_anything_is_counted() {
    let mut ledger = ledger(GRANT);
    let mut counter = Counter::new(false);
    let request = parse(r#"{"model": "gpt-5.6-luna", "input": "hi", "stream": true}"#);
    let Decision::Refused(refused) = decide(
        &admitter(false),
        &mut ledger,
        &mut counter,
        &request,
        Window::Open,
    ) else {
        panic!("expected a refusal")
    };
    assert_eq!(refused, Refused::UnknownModel("gpt-5.6-luna".into()));
    assert_eq!(counter.calls, 0);
    assert_eq!(reserved_liability(&ledger), 0);
}

#[test]
fn a_closed_window_reserves_nothing() {
    let mut ledger = ledger(GRANT);
    let mut counter = Counter::new(false);
    for (window, expected) in [
        (
            Window::Closed(ClosedReason::NoTrustedTime),
            Refused::WindowClosed(ClosedReason::NoTrustedTime),
        ),
        (
            Window::Closed(ClosedReason::NearBoundary),
            Refused::WindowClosed(ClosedReason::NearBoundary),
        ),
        (
            Window::RolloverDue { epoch: 2 },
            Refused::RolloverDue { epoch: 2 },
        ),
    ] {
        let Decision::Refused(refused) = decide(
            &admitter(true),
            &mut ledger,
            &mut counter,
            &flat(10),
            window,
        ) else {
            panic!("expected a refusal")
        };
        assert_eq!(refused, expected);
    }
    assert_eq!(counter.calls, 0);
    assert_eq!(reserved_liability(&ledger), 0);
}

#[test]
fn a_liability_over_the_remaining_grant_is_refused_by_the_ledger() {
    let mut ledger = ledger(1_500);
    let mut counter = Counter::new(false);
    let Decision::Refused(Refused::Ledger(Refusal::InsufficientQuota {
        remaining,
        liability,
    })) = decide(
        &admitter(true),
        &mut ledger,
        &mut counter,
        &flat(2_000),
        Window::Open,
    )
    else {
        panic!("expected the ledger to refuse")
    };
    assert_eq!(remaining, 1_500);
    assert_eq!(liability, 5 + 64 + 2_000);
    assert_eq!(reserved_liability(&ledger), 0);
}

#[test]
fn an_uncountable_input_is_refused_rather_than_estimated() {
    let mut ledger = ledger(GRANT);
    let mut counter = Counter::new(true);
    let Decision::Refused(Refused::InputNotCounted(detail)) = decide(
        &admitter(false),
        &mut ledger,
        &mut counter,
        &lite(),
        Window::Open,
    ) else {
        panic!("expected a refusal")
    };
    assert!(detail.contains("500"), "{detail}");
    assert_eq!(counter.calls, 1, "it stops at the first failure");
    assert_eq!(reserved_liability(&ledger), 0);
}

#[test]
fn the_digest_binds_the_body() {
    let a = digest(b"{\"model\":\"m\"}");
    assert_eq!(a, digest(b"{\"model\":\"m\"}"));
    assert_ne!(a, digest(b"{\"model\":\"n\"}"));
    assert!(a.ends_with(":13"), "{a}");
}

#[test]
fn a_digest_is_spelled_out() {
    assert_eq!(digest(b""), "fnv1a64:cbf29ce484222325:0");
    assert_eq!(digest(b"a"), "fnv1a64:af63dc4c8601ec8c:1");
}

#[test]
fn counts_that_add_up_to_too_much_are_an_error() {
    let admitter = admitter(false);
    let request = lite();
    let AdmitStep::Count(counting) = admitter.begin(&request, Window::Open) else {
        panic!("expected to count")
    };
    let AdmitStep::Count(counting) = admitter.counted(&request, counting, Ok(u64::MAX)) else {
        panic!("expected to count again")
    };
    assert!(matches!(
        admitter.counted(&request, counting, Ok(1)),
        AdmitStep::Refuse(Refused::Estimate(EstimateError::Overflow))
    ));
}

#[test]
fn a_ledger_that_cannot_answer_refuses() {
    let decision = admitter(true).reserved(vec![1], Err("the disk is gone".into()));
    let Decision::Refused(refused) = decision else {
        panic!("expected a refusal")
    };
    assert_eq!(
        refused,
        Refused::LedgerUnavailable("the disk is gone".into())
    );
}

#[test]
fn a_counter_answer_without_a_count_is_no_count() {
    let missing = Err("the counter's answer carried no input_tokens".to_string());
    assert_eq!(read_counter(true, "200 OK", "{}"), missing);
    assert_eq!(read_counter(true, "200 OK", "not json"), missing);
    assert_eq!(
        read_counter(true, "200 OK", r#"{"input_tokens":-1}"#),
        missing
    );
    assert_eq!(read_count(None), missing);
    let value = Json::parse(br#"{"input_tokens":7}"#).unwrap();
    assert_eq!(read_count(Some(&value)), Ok(7));
    assert_eq!(
        read_counter(false, "404 Not Found", &"x".repeat(400)),
        Err(format!(
            "the counter answered 404 Not Found: {}",
            "x".repeat(300)
        ))
    );
}

#[test]
fn texts_are_clipped_by_characters() {
    assert_eq!(clip("日本語", 2), "日本");
    assert_eq!(clip("ab", 5), "ab");
    assert_eq!(clip("", 0), "");
}
