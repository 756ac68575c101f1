use quotamiser::dispatch::{
    append_capped, Disposition, Head, SuperviseAction, SuperviseEvent, Supervisor,
};
use quotamiser::failure_breaker::{BreakerPolicy, FailureBreaker};
use quotamiser::hwm::HighWaterMark;
use quotamiser::ledger::{Admission, Ledger, ReservationId, ReservationRequest};
use quotamiser::rate_limit::{Headers, RateLimitGate};
use quotamiser::relay::{Relay, RelayAction, RelayEvent};
use quotamiser::sending::OPENAI_SCOPE;
use quotamiser::state::State;
use quotamiser::status_policy::{ClientAction, ProviderAction};
use quotamiser::tables::Tables;
use quotamiser::transitions::Settlement;

const SECOND: u64 = 1_000_000_000;
const LIABILITY: u64 = 1_000;

/// What upstream does with a request.
#[derive(Clone, Copy)]
enum Mode {
    Completes,
    /// Names the response after this long, then goes on.
    CreatedAfter(u64),
    NeverNamesTheResponse,
    EndsBeforeTerminal,
    Redirects,
    RejectsAsBadRequest,
    RateLimits,
    ServiceUnavailable,
    Unreachable,
}

/// When the client goes.
#[derive(Clone, Copy, PartialEq)]
enum Client {
    Stays,
    LeavesAfterFirstChunk,
    LeavesBeforeTheHead,
}

fn lifecycle(name: &str, status: &str, usage: &str) -> Vec<u8> {
    let data = format!(
        r#"{{"type":"{name}","response":{{"id":"resp_1","status":"{status}","model":"gpt-5.6-terra","service_tier":"default","usage":{usage}}}}}"#
    );
    format!("event: {name}\ndata: {data}\n\n").into_bytes()
}

fn created() -> Vec<u8> {
    lifecycle("response.created", "in_progress", "null")
}

fn delta() -> Vec<u8> {
    b"event: response.output_text.delta\ndata: {\"type\":\"response.output_text.delta\",\"delta\":\"x\"}\n\n".to_vec()
}

/// The chunks of a stream with the times they come at.
fn script(mode: Mode) -> Vec<(u64, Vec<u8>)> {
    let trickle = |from: u64| (1..50).map(move |n| (from + n * SECOND / 20, delta()));
    match mode {
        Mode::Completes => vec![
            (0, created()),
            (0, delta()),
            (
                0,
                lifecycle(
                    "response.completed",
                    "completed",
                    r#"{"input_tokens":9,"output_tokens":5}"#,
                ),
            ),
        ],
        Mode::CreatedAfter(delay) => {
            let mut chunks = vec![(delay, created())];
            chunks.extend(trickle(delay));
            chunks
        }
        Mode::NeverNamesTheResponse => trickle(0).collect(),
        Mode::EndsBeforeTerminal => vec![(0, created()), (0, delta())],
        _ => unreachable!(),
    }
}

fn request() -> ReservationRequest {
    ReservationRequest {
        pool_id: "openai:small".into(),
        liability: LIABILITY,
        request_digest: "digest".into(),
        model_snapshot: "gpt-5.6-terra".into(),
        service_tier: "default".into(),
        accounting_rev: 1,
        required_safety_inputs: vec!["data_sharing".into()],
    }
}

struct World {
    ledger: Ledger,
    external: Option<HighWaterMark>,
    limiter: RateLimitGate,
    breaker: FailureBreaker,
    id_wait: u64,
    now: u64,
    requests: usize,
    cancels: usize,
}

struct Dispatched {
    /// `None` where the response was streamed.
    head: Option<Head>,
    relayed: Vec<u8>,
    disposition: Disposition,
}

impl World {
    fn new(id_wait: u64) -> World {
        let (mut ledger, _) = Ledger::open(Tables::fresh(), Ok(None)).unwrap();
        ledger
            .rollover(1, &[("openai:small".into(), 10_000)])
            .unwrap();
        let external = Some(ledger.recovery_anchor(None).unwrap());
        ledger.adopt_recovered_consumption(&[], None).unwrap();
        ledger
            .revalidate_safety_input("data_sharing", 0, i64::MAX / 2, 1_000_000)
            .unwrap();
        World {
            ledger,
            external,
            limiter: RateLimitGate::new(),
            breaker: FailureBreaker::new(BreakerPolicy {
                threshold: 3,
                initial_cooldown: 30 * SECOND,
                max_cooldown: 600 * SECOND,
            }),
            id_wait,
            now: 5 * SECOND,
            requests: 0,
            cancels: 0,
        }
    }

    fn reserve(&mut self) -> ReservationId {
        match self.ledger.reserve(&request(), 1).unwrap() {
            Admission::Reserved(id) => id,
            other => panic!("expected a reservation, got {other:?}"),
        }
    }

    fn begin(&mut self, id: ReservationId) -> Result<(), String> {
        let mark = self.ledger.dispatch_mark(id).map_err(|e| e.message())?;
        self.external = Some(mark);
        self.ledger
            .begin_dispatch(id, mark)
            .map_err(|e| e.message())
    }

    fn headers(mode: Mode) -> Headers {
        Headers {
            entries: match mode {
                Mode::RateLimits => vec![("retry-after".into(), Some("30".into()))],
                _ => vec![],
            },
        }
    }

    fn dispatch(&mut self, id: ReservationId, mode: Mode, client: Client) -> Dispatched {
        let mut state = Supervisor::new();
        let mut event = SuperviseEvent::HeldBack {
            rate_limited: self.limiter.closed_for(self.now),
            cooling_down: self.breaker.open_for(self.now),
        };
        let mut head = None;
        let mut relayed = Vec::new();
        loop {
            let (next, action) = state.step(event).expect("the event answers the action");
            state = next;
            let mut done = |result: Result<(), quotamiser::error::LedgerError>| {
                SuperviseEvent::Ledger(result.map_err(|error| error.message()))
            };
            event = match action {
                SuperviseAction::ReleaseUnsent => done(self.ledger.release_unsent(id)),
                SuperviseAction::BeginDispatch => SuperviseEvent::Ledger(self.begin(id)),
                SuperviseAction::Send => {
                    let status = match mode {
                        Mode::Unreachable => None,
                        Mode::Redirects => Some(307),
                        Mode::RejectsAsBadRequest => Some(400),
                        Mode::RateLimits => Some(429),
                        Mode::ServiceUnavailable => Some(503),
                        _ => Some(200),
                    };
                    match status {
                        None => SuperviseEvent::SendFailed {
                            detail: "connection refused".into(),
                        },
                        Some(status) => {
                            self.requests += 1;
                            SuperviseEvent::Answered { status }
                        }
                    }
                }
                SuperviseAction::RecordFailure => {
                    self.breaker.record_ambiguous_failure(self.now);
                    SuperviseEvent::Noted
                }
                SuperviseAction::NoteRateLimited => {
                    self.limiter
                        .record_rate_limited(&World::headers(mode), self.now);
                    SuperviseEvent::Noted
                }
                SuperviseAction::NoteHeaders => {
                    self.limiter.record_headers(&World::headers(mode), self.now);
                    SuperviseEvent::Noted
                }
                SuperviseAction::NoteNothing => SuperviseEvent::Noted,
                SuperviseAction::CloseProvider { status } => {
                    done(self.ledger.close_provider(OPENAI_SCOPE, status, 9))
                }
                SuperviseAction::ReadBody => {
                    let mut body = Vec::new();
                    append_capped(&mut body, br#"{"error":{"message":"bad"}}"#, 4096);
                    SuperviseEvent::Body(body)
                }
                SuperviseAction::ReleaseRejected => done(self.ledger.release_rejected(id)),
                SuperviseAction::Hold => done(self.ledger.mark_id_unknown(id)),
                SuperviseAction::Deliver(delivered) => {
                    head = Some(delivered);
                    SuperviseEvent::Delivered
                }
                SuperviseAction::Relay => {
                    SuperviseEvent::Relayed(self.relay(id, mode, client, &mut relayed))
                }
                SuperviseAction::Finish(disposition) => {
                    return Dispatched {
                        head,
                        relayed,
                        disposition,
                    };
                }
            };
        }
    }

    fn relay(
        &mut self,
        id: ReservationId,
        mode: Mode,
        client: Client,
        relayed: &mut Vec<u8>,
    ) -> Disposition {
        let start = self.now;
        let mut chunks = script(mode).into_iter().peekable();
        let mut chunk = Vec::new();
        let (mut relay, mut action) =
            Relay::new(client != Client::LeavesBeforeTheHead, self.id_wait, self.now);
        loop {
            let event = match action {
                RelayAction::Wait { until } => {
                    let next = chunks.peek().map(|(at, _)| start + at);
                    let left = client == Client::LeavesAfterFirstChunk && !relayed.is_empty();
                    if left && until.is_none() {
                        RelayEvent::ClientGone
                    } else {
                        match (until, next) {
                            (Some(deadline), next) if next.map_or(true, |at| at > deadline) => {
                                self.now = deadline;
                                RelayEvent::DeadlinePassed
                            }
                            (_, Some(at)) => {
                                self.now = self.now.max(at);
                                chunk = chunks.next().unwrap().1;
                                RelayEvent::Chunk(chunk.clone())
                            }
                            (_, None) => RelayEvent::Ended,
                        }
                    }
                }
                RelayAction::Attach { response_id } => RelayEvent::Attached(
                    self.ledger
                        .attach_response_id(id, &response_id)
                        .map_err(|e| e.message()),
                ),
                RelayAction::Settle(completed) => {
                    self.breaker.record_completion();
                    RelayEvent::Settled(
                        self.ledger
                            .settle(id, &completed, 1, 7)
                            .map_err(|e| e.message()),
                    )
                }
                RelayAction::Forward => {
                    relayed.extend_from_slice(&chunk);
                    RelayEvent::Forwarded { delivered: true }
                }
                RelayAction::Cancel { .. } => {
                    self.cancels += 1;
                    RelayEvent::Cancelled
                }
                RelayAction::RecordFailure => {
                    self.breaker.record_ambiguous_failure(self.now);
                    RelayEvent::FailureRecorded
                }
                RelayAction::Hold => RelayEvent::Held(
                    self.ledger.mark_id_unknown(id).map_err(|e| e.message()),
                ),
                RelayAction::Finish(disposition) => return disposition,
            };
            action = relay
                .step(event, self.now)
                .expect("the event answers the action");
        }
    }

    fn state(&self, id: ReservationId) -> State {
        self.ledger.reservation_state(id).unwrap()
    }

    fn counters(&self) -> (i64, i64) {
        let c = self.ledger.counters("openai:small", 1).unwrap().unwrap();
        (c.reserved, c.consumed)
    }
}

#[test]
fn a_completed_stream_is_relayed_and_settled() {
    let mut world = World::new(2 * SECOND);
    let id = world.reserve();
    let dispatched = world.dispatch(id, Mode::Completes, Client::Stays);
    assert!(dispatched.head.is_none(), "expected a stream");
    let whole: Vec<u8> = script(Mode::Completes)
        .into_iter()
        .flat_map(|(_, chunk)| chunk)
        .collect();
    assert_eq!(dispatched.relayed, whole, "every byte reaches the client");
    assert!(String::from_utf8_lossy(&dispatched.relayed).contains("response.completed"));
    assert_eq!(
        dispatched.disposition,
        Disposition::Settled(Settlement::Settled {
            actual: 14,
            overrun: false
        })
    );
    assert_eq!(world.state(id), State::Settled);
    assert_eq!(world.counters(), (0, 14));
}

#[test]
fn a_redirect_is_refused_and_the_reservation_held() {
    let mut world = World::new(2 * SECOND);
    let id = world.reserve();
    let dispatched = world.dispatch(id, Mode::Redirects, Client::Stays);
    let Some(Head::Refused {
        status, decision, ..
    }) = dispatched.head
    else {
        panic!("expected a refusal")
    };
    assert_eq!(status, 307);
    assert_eq!(decision.provider, ProviderAction::CloseUntilRemediated);
    assert_eq!(dispatched.disposition, Disposition::HeldAsUnknown);
    assert_eq!(world.state(id), State::DispatchedIdUnknown);
    assert_eq!(world.counters(), (LIABILITY as i64, 0));
}

#[test]
fn a_redirect_closes_the_provider_until_it_is_cleared() {
    let mut world = World::new(2 * SECOND);
    let waiting = world.reserve();
    let id = world.reserve();
    world.dispatch(id, Mode::Redirects, Client::Stays);
    assert!(matches!(
        world.ledger.reserve(&request(), 2),
        Ok(Admission::Refused(_))
    ));
    assert!(world.ledger.may_send(waiting, b"{}").is_err());
    assert_eq!(world.requests, 1, "the redirect is not followed");
    assert_eq!(
        world.ledger.tables.latches[0].evidence.as_deref(),
        Some("status 307")
    );
    world
        .ledger
        .clear_latches(OPENAI_SCOPE, "someone", 10)
        .unwrap();
    world.reserve();
}

#[test]
fn a_closing_that_is_not_durable_leaves_the_reservation_as_sent() {
    let begun = Supervisor::Sending;
    let (state, action) = begun.step(SuperviseEvent::Answered { status: 403 }).unwrap();
    assert!(matches!(
        action,
        SuperviseAction::CloseProvider { status: 403 }
    ));
    let (state, action) = state
        .step(SuperviseEvent::Ledger(Err("disk full".into())))
        .unwrap();
    assert!(matches!(
        action,
        SuperviseAction::Deliver(Head::Refused { status: 403, .. })
    ));
    let (_, action) = state.step(SuperviseEvent::Delivered).unwrap();
    assert!(matches!(
        action,
        SuperviseAction::Finish(Disposition::LedgerFailed(detail)) if detail == "disk full"
    ));
}

#[test]
fn a_bad_request_is_returned_and_the_reservation_released() {
    let mut world = World::new(2 * SECOND);
    let id = world.reserve();
    let dispatched = world.dispatch(id, Mode::RejectsAsBadRequest, Client::Stays);
    let Some(Head::Refused { decision, body, .. }) = dispatched.head else {
        panic!("expected a refusal")
    };
    assert_eq!(decision.client, ClientAction::ReturnError);
    assert!(String::from_utf8_lossy(&body).contains("bad"));
    assert_eq!(dispatched.disposition, Disposition::ReleasedRejected);
    assert_eq!(world.state(id), State::RejectedBeforeProcessing);
    assert_eq!(world.counters(), (0, 0));
}

#[test]
fn a_rate_limit_releases_the_reservation_and_holds_the_provider_back() {
    let mut world = World::new(2 * SECOND);
    let first = world.reserve();
    let dispatched = world.dispatch(first, Mode::RateLimits, Client::Stays);
    let Some(Head::Refused {
        status, decision, ..
    }) = dispatched.head
    else {
        panic!("expected a refusal")
    };
    assert_eq!(status, 429);
    assert_eq!(decision.provider, ProviderAction::BackOff);
    assert_eq!(dispatched.disposition, Disposition::ReleasedRejected);
    assert_eq!(world.state(first), State::RejectedBeforeProcessing);
    assert_eq!(world.counters(), (0, 0));

    let second = world.reserve();
    let dispatched = world.dispatch(second, Mode::RateLimits, Client::Stays);
    let Some(Head::RateLimited { retry_after }) = dispatched.head else {
        panic!("expected to be held back")
    };
    assert!(
        retry_after > 25 * SECOND,
        "the provider's Retry-After is honoured"
    );
    assert_eq!(dispatched.disposition, Disposition::ReleasedUnsent);
    assert_eq!(world.state(second), State::ReleasedUnsent);
    assert_eq!(world.requests, 1, "nothing is sent while held back");
    assert_eq!(world.counters(), (0, 0));
}

#[test]
fn a_transport_failure_is_an_unknown_outcome() {
    let mut world = World::new(2 * SECOND);
    let id = world.reserve();
    let dispatched = world.dispatch(id, Mode::Unreachable, Client::Stays);
    assert!(matches!(dispatched.head, Some(Head::OutcomeUnknown(_))));
    assert_eq!(dispatched.disposition, Disposition::HeldAsUnknown);
    assert_eq!(world.state(id), State::DispatchedIdUnknown);
}

#[test]
fn a_disconnect_after_the_id_cancels_upstream() {
    let mut world = World::new(2 * SECOND);
    let id = world.reserve();
    let dispatched = world.dispatch(id, Mode::CreatedAfter(0), Client::LeavesAfterFirstChunk);
    assert_eq!(
        dispatched.disposition,
        Disposition::AwaitingRetrieval {
            response_id: "resp_1".into()
        }
    );
    assert_eq!(world.cancels, 1);
    assert_eq!(world.state(id), State::DispatchedWithId);
    assert_eq!(
        world.counters(),
        (LIABILITY as i64, 0),
        "nothing is released until retrieval settles it"
    );
}

#[test]
fn a_disconnect_before_the_id_waits_for_it_and_then_cancels() {
    let mut world = World::new(3 * SECOND);
    let id = world.reserve();
    let dispatched = world.dispatch(
        id,
        Mode::CreatedAfter(3 * SECOND / 10),
        Client::LeavesBeforeTheHead,
    );
    assert_eq!(
        dispatched.disposition,
        Disposition::AwaitingRetrieval {
            response_id: "resp_1".into()
        }
    );
    assert_eq!(world.cancels, 1);
    assert_eq!(world.state(id), State::DispatchedWithId);
}

#[test]
fn a_disconnect_before_the_id_gives_up_after_the_wait() {
    let mut world = World::new(SECOND / 5);
    let id = world.reserve();
    let dispatched = world.dispatch(
        id,
        Mode::NeverNamesTheResponse,
        Client::LeavesBeforeTheHead,
    );
    assert_eq!(dispatched.disposition, Disposition::HeldAsUnknown);
    assert_eq!(world.cancels, 0, "there is no id to cancel");
    assert_eq!(world.state(id), State::DispatchedIdUnknown);
    assert_eq!(world.counters(), (LIABILITY as i64, 0));
}

#[test]
fn repeated_server_errors_cool_the_provider_down() {
    let mut world = World::new(2 * SECOND);
    let mut id = world.reserve();
    for _ in 0..3 {
        let dispatched = world.dispatch(id, Mode::ServiceUnavailable, Client::Stays);
        let Some(Head::Refused { status, .. }) = dispatched.head else {
            panic!("expected a refusal")
        };
        assert_eq!(status, 503);
        assert_eq!(dispatched.disposition, Disposition::HeldAsUnknown);
        id = world.reserve();
    }

    let dispatched = world.dispatch(id, Mode::ServiceUnavailable, Client::Stays);
    let Some(Head::CoolingDown { retry_after }) = dispatched.head else {
        panic!("expected the provider to be cooling down")
    };
    assert!(retry_after > 25 * SECOND);
    assert_eq!(dispatched.disposition, Disposition::ReleasedUnsent);
    assert_eq!(world.state(id), State::ReleasedUnsent);
    assert_eq!(world.requests, 3, "nothing is sent while cooling down");
    assert_eq!(
        world.counters(),
        (3 * LIABILITY as i64, 0),
        "the three unknown outcomes stay held"
    );
}

#[test]
fn a_completed_response_between_server_errors_keeps_the_provider_open() {
    let mut world = World::new(2 * SECOND);
    let mut id = world.reserve();
    for mode in [
        Mode::ServiceUnavailable,
        Mode::ServiceUnavailable,
        Mode::Completes,
        Mode::ServiceUnavailable,
        Mode::ServiceUnavailable,
        Mode::Completes,
    ] {
        let dispatched = world.dispatch(id, mode, Client::Stays);
        assert!(!matches!(dispatched.head, Some(Head::CoolingDown { .. })));
        id = world.reserve();
    }
    assert_eq!(world.requests, 6);
    assert_eq!(world.breaker.open_for(world.now), None);
}

#[test]
fn streams_that_end_before_their_terminal_event_cool_the_provider_down() {
    let mut world = World::new(2 * SECOND);
    let mut id = world.reserve();
    for _ in 0..3 {
        let dispatched = world.dispatch(id, Mode::EndsBeforeTerminal, Client::Stays);
        assert_eq!(
            dispatched.disposition,
            Disposition::AwaitingRetrieval {
                response_id: "resp_1".into()
            },
            "retrieval settles what the stream could not"
        );
        id = world.reserve();
    }
    let dispatched = world.dispatch(id, Mode::EndsBeforeTerminal, Client::Stays);
    assert!(matches!(dispatched.head, Some(Head::CoolingDown { .. })));
    assert_eq!(world.requests, 3);
}

#[test]
fn an_event_that_answers_nothing_is_not_a_step() {
    assert!(Supervisor::new().step(SuperviseEvent::Delivered).is_none());
    let (mut relay, _) = Relay::new(true, SECOND, 0);
    assert!(relay.step(RelayEvent::Cancelled, 0).is_none());
}

#[test]
fn error_bodies_are_kept_up_to_a_cap() {
    let mut body = Vec::new();
    assert!(!append_capped(&mut body, b"abc", 5));
    assert!(append_capped(&mut body, b"defg", 5));
    assert_eq!(body, b"abcde");
    assert!(append_capped(&mut body, b"h", 5));
    assert_eq!(body, b"abcde");
}
