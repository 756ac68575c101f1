use quotamiser::json::Json;
use quotamiser::responses::{
    Observation, ObserveFailure, ResponseSummary, StreamObserver,
};
use quotamiser::sse::FramingError;
use quotamiser::transitions::Usage;

fn lifecycle(name: &str, status: &str, usage: &str) -> String {
    let data = format!(
        r#"{{"type":"{name}","response":{{"id":"resp_1","object":"response","status":"{status}","model":"gpt-5.6-terra","service_tier":"default","usage":{usage}}},"sequence_number":0}}"#
    );
    format!("event: {name}\ndata: {data}\n\n")
}

fn completed(input: i64, output: i64) -> String {
    let total = input + output;
    lifecycle(
        "response.completed",
        "completed",
        &format!(
            r#"{{"input_tokens":{input},"output_tokens":{output},"total_tokens":{total}}}"#
        ),
    )
}

fn json(text: &str) -> Json {
    Json::parse(text.as_bytes()).unwrap()
}

#[test]
fn the_id_and_the_final_usage_are_observed() {
    let mut observer = StreamObserver::new();
    let created =
        observer.push(lifecycle("response.created", "in_progress", "null").as_bytes());
    assert_eq!(created, [Observation::ResponseId("resp_1".into())]);

    observer.push(b"event: response.output_text.delta\ndata: {\"delta\":\"hi\"}\n\n");
    let done = observer.push(completed(9, 5).as_bytes());
    let summary = || ResponseSummary {
        id: "resp_1".into(),
        status: "completed".into(),
        model: Some("gpt-5.6-terra".into()),
        service_tier: Some("default".into()),
        usage: Some(Usage {
            input_tokens: 9,
            output_tokens: 5,
        }),
    };
    assert_eq!(done, [Observation::Terminal(summary())]);
    assert_eq!(observer.terminal(), Some(&summary()));
    assert_eq!(observer.response_id(), Some("resp_1"));
    assert_eq!(observer.failure(), None);
}

#[test]
fn an_incomplete_response_is_terminal() {
    let mut observer = StreamObserver::new();
    observer.push(
        lifecycle(
            "response.incomplete",
            "incomplete",
            r#"{"input_tokens": 3, "output_tokens": 4000}"#,
        )
        .as_bytes(),
    );
    assert_eq!(
        observer.terminal().unwrap().usage,
        Some(Usage {
            input_tokens: 3,
            output_tokens: 4000
        })
    );
}

#[test]
fn events_split_across_packets_are_still_observed() {
    let mut observer = StreamObserver::new();
    let text = completed(1, 2);
    let (head, tail) = text.as_bytes().split_at(text.len() / 2);
    assert!(observer.push(head).is_empty());
    assert_eq!(observer.push(tail).len(), 2);
}

#[test]
fn non_lifecycle_events_are_not_parsed() {
    let mut observer = StreamObserver::new();
    assert!(
        observer
            .push(b"event: response.output_text.delta\ndata: not json at all\n\n")
            .is_empty()
    );
    assert_eq!(observer.failure(), None);
}

#[test]
fn an_error_event_is_reported() {
    let mut observer = StreamObserver::new();
    let observed = observer.push(b"event: error\ndata: {\"type\":\"error\",\"code\":\"server_error\",\"message\":\"boom\"}\n\n");
    assert_eq!(
        observed,
        [Observation::StreamError {
            code: Some("server_error".into()),
            message: Some("boom".into())
        }]
    );
}

#[test]
fn an_unreadable_lifecycle_event_fails_the_observer() {
    let mut observer = StreamObserver::new();
    observer.push(b"event: response.completed\ndata: {truncated\n\n");
    assert_eq!(
        observer.failure(),
        Some(ObserveFailure::MalformedLifecycleEvent)
    );
    assert!(observer.push(completed(1, 1).as_bytes()).is_empty());
}

#[test]
fn an_event_name_that_disagrees_with_its_type_is_malformed() {
    let mut observer = StreamObserver::new();
    let text =
        completed(1, 1).replacen("event: response.completed", "event: response.created", 1);
    observer.push(text.as_bytes());
    assert_eq!(
        observer.failure(),
        Some(ObserveFailure::MalformedLifecycleEvent)
    );
}

#[test]
fn a_second_response_id_fails_the_observer() {
    let mut observer = StreamObserver::new();
    observer.push(lifecycle("response.created", "in_progress", "null").as_bytes());
    observer.push(completed(1, 1).replace("resp_1", "resp_2").as_bytes());
    assert_eq!(
        observer.failure(),
        Some(ObserveFailure::ConflictingResponseIds)
    );
    assert_eq!(observer.terminal(), None);
}

#[test]
fn disagreeing_terminal_events_fail_the_observer() {
    let mut observer = StreamObserver::new();
    observer.push(completed(1, 1).as_bytes());
    observer.push(completed(1, 1).as_bytes());
    assert_eq!(
        observer.failure(),
        None,
        "a repeated identical terminal is harmless"
    );
    observer.push(completed(1, 999).as_bytes());
    assert_eq!(
        observer.failure(),
        Some(ObserveFailure::ConflictingTerminals)
    );
}

#[test]
fn a_framing_failure_fails_the_observer() {
    let mut observer = StreamObserver::new();
    observer.push(b"data: \xff\n\n");
    assert_eq!(
        observer.failure(),
        Some(ObserveFailure::Framing(FramingError::InvalidUtf8))
    );
}

#[test]
fn a_retrieved_response_object_is_read() {
    let body = json(
        r#"{"id": "resp_9", "object": "response", "status": "cancelled", "model": "gpt-5.6-terra",
        "usage": {"input_tokens": 35, "output_tokens": 5337, "total_tokens": 5372}}"#,
    );
    let summary = ResponseSummary::from_object(&body).unwrap();
    assert!(summary.is_terminal());
    assert_eq!(summary.service_tier, None);
    assert_eq!(
        summary.usage,
        Some(Usage {
            input_tokens: 35,
            output_tokens: 5337
        })
    );
}

#[test]
fn usage_that_is_not_integers_reads_as_absent() {
    let body = json(
        r#"{"id": "r", "status": "completed", "usage": {"input_tokens": "9", "output_tokens": 5}}"#,
    );
    assert_eq!(ResponseSummary::from_object(&body).unwrap().usage, None);
    let in_progress = json(r#"{"id": "r", "status": "in_progress", "usage": null}"#);
    assert!(
        !ResponseSummary::from_object(&in_progress)
            .unwrap()
            .is_terminal()
    );
}

#[test]
fn every_cut_of_a_stream_is_observed_the_same() {
    let good = completed(3, 4);
    let conflicting = completed(3, 4) + &completed(3, 5) + &completed(3, 4);
    let broken = b"data: \xff\r\n\r\n".to_vec();
    for stream in [good.into_bytes(), conflicting.into_bytes(), broken] {
        let mut whole = StreamObserver::new();
        let expected = whole.push(&stream);
        for cut in 0..=stream.len() {
            let mut observer = StreamObserver::new();
            let mut observed = observer.push(&stream[..cut]);
            observed.extend(observer.push(b""));
            observed.extend(observer.push(&stream[cut..]));
            assert_eq!(observed, expected, "cut at {cut}");
            assert_eq!(observer.failure(), whole.failure());
            assert_eq!(observer.response_id(), whole.response_id());
            assert_eq!(observer.terminal(), whole.terminal());
        }
    }
}
