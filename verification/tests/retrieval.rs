use quotamiser::hwm::HighWaterMark;
use quotamiser::ledger::{Admission, Ledger, ReservationId, ReservationRequest};
use quotamiser::retrieval::{
    Answer, Outcome, Plan, RetrievalPolicy, RetrievalWorker, Retrieved, SweepEntry,
    WriteOffReason,
};
use quotamiser::tables::Tables;
use quotamiser::transitions::Settlement;

const NOW: i64 = 2_000;
const SECOND: u64 = 1_000_000_000;

/// What upstream answers for a response.
fn retrieve(id: &str) -> Answer {
    let object = |status: &str, usage: &str| {
        Answer::Body(
            format!(
                r#"{{"id":"{id}","status":"{status}","model":"gpt-5.6-terra","service_tier":"default","usage":{usage}}}"#
            )
            .into_bytes(),
        )
    };
    match id {
        "resp_done" => object("completed", r#"{"input_tokens":9,"output_tokens":5}"#),
        "resp_running" => object("in_progress", "null"),
        "resp_down" => Answer::Status(500),
        "resp_lost" => Answer::Failed("connection reset".into()),
        "resp_garbled" => Answer::Body(b"{".to_vec()),
        "resp_other" => Answer::Body(
            br#"{"id":"resp_another","status":"completed","usage":null}"#.to_vec(),
        ),
        _ => Answer::Status(404),
    }
}

struct World {
    ledger: Ledger,
    external: Option<HighWaterMark>,
    worker: RetrievalWorker,
    now: u64,
}

impl World {
    fn new() -> World {
        let (mut ledger, _) = Ledger::open(Tables::fresh(), Ok(None)).unwrap();
        ledger
            .rollover(1, &[("openai:small".into(), 100_000)])
            .unwrap();
        let external = Some(ledger.recovery_anchor(None).unwrap());
        ledger.adopt_recovered_consumption(&[], None).unwrap();
        ledger
            .revalidate_safety_input("data_sharing", 0, i64::MAX / 2, 1_000_000)
            .unwrap();
        let worker = RetrievalWorker::new(RetrievalPolicy {
            initial_backoff: 60 * SECOND,
            max_backoff: 600 * SECOND,
            write_off_unknown_after: 300 * SECOND,
            trust_not_found_after: 120 * SECOND,
            escalate_after: 900 * SECOND,
            accounting_rev: 1,
        });
        World {
            ledger,
            external,
            worker,
            now: 0,
        }
    }

    /// Reserves at `created_at`, dispatches, and records `response_id` or,
    /// with `None`, an unknown id.
    fn dispatched(&mut self, created_at: i64, response_id: Option<&str>) -> ReservationId {
        let request = ReservationRequest {
            pool_id: "openai:small".into(),
            liability: 1_000,
            request_digest: "digest".into(),
            model_snapshot: "gpt-5.6-terra".into(),
            service_tier: "default".into(),
            accounting_rev: 1,
            required_safety_inputs: vec!["data_sharing".into()],
        };
        let Admission::Reserved(id) = self.ledger.reserve(&request, created_at).unwrap() else {
            panic!("not reserved")
        };
        let mark = self.ledger.dispatch_mark(id).unwrap();
        self.external = Some(mark);
        self.ledger.begin_dispatch(id, mark).unwrap();
        match response_id {
            Some(response_id) => self.ledger.attach_response_id(id, response_id).unwrap(),
            None => self.ledger.mark_id_unknown(id).unwrap(),
        }
        id
    }

    fn sweep(&mut self) -> Vec<SweepEntry> {
        let open = self.ledger.open_dispatches().unwrap();
        self.worker.begin_sweep(&open);
        let mut entries = Vec::new();
        for dispatch in &open {
            let outcome = match self.worker.plan(dispatch, NOW, self.now) {
                Plan::Wait => Outcome::Waiting,
                Plan::WriteOff(reason) => {
                    self.ledger.write_off(dispatch.id).unwrap();
                    self.worker.closed(dispatch.id);
                    Outcome::WrittenOff(reason)
                }
                Plan::Retrieve { response_id } => {
                    let answer = retrieve(&response_id);
                    match self
                        .worker
                        .answered(dispatch, &response_id, answer, NOW, self.now)
                    {
                        Retrieved::Later(outcome) => outcome,
                        Retrieved::WriteOff(reason) => {
                            self.ledger.write_off(dispatch.id).unwrap();
                            self.worker.closed(dispatch.id);
                            Outcome::WrittenOff(reason)
                        }
                        Retrieved::Settle(completed) => {
                            let settlement = self
                                .ledger
                                .settle(dispatch.id, &completed, 1, NOW)
                                .unwrap();
                            self.worker.closed(dispatch.id);
                            Outcome::Settled(settlement)
                        }
                    }
                }
            };
            entries.push(SweepEntry {
                reservation: dispatch.id,
                outcome,
                escalate: self.worker.escalates(dispatch, NOW),
            });
        }
        entries
    }
}

fn outcome_of(entries: &[SweepEntry], id: ReservationId) -> &SweepEntry {
    entries
        .iter()
        .find(|e| e.reservation == id)
        .expect("every open dispatch is reported")
}

#[test]
fn a_sweep_settles_retries_and_writes_off_on_the_right_evidence() {
    let mut world = World::new();
    let done = world.dispatched(NOW - 60, Some("resp_done"));
    let running = world.dispatched(NOW - 60, Some("resp_running"));
    let gone_young = world.dispatched(NOW - 10, Some("resp_gone_young"));
    let gone_old = world.dispatched(NOW - 1_000, Some("resp_gone_old"));
    let unknown_old = world.dispatched(NOW - 1_000, None);
    let unknown_young = world.dispatched(NOW - 10, None);

    let entries = world.sweep();
    assert_eq!(entries.len(), 6);
    assert_eq!(
        outcome_of(&entries, done).outcome,
        Outcome::Settled(Settlement::Settled {
            actual: 14,
            overrun: false
        })
    );
    assert_eq!(outcome_of(&entries, running).outcome, Outcome::StillRunning);
    assert!(
        matches!(
            outcome_of(&entries, gone_young).outcome,
            Outcome::RetryLater(_)
        ),
        "a young not-found is not believed"
    );
    assert_eq!(
        outcome_of(&entries, gone_old).outcome,
        Outcome::WrittenOff(WriteOffReason::NotFoundUpstream)
    );
    assert_eq!(
        outcome_of(&entries, unknown_old).outcome,
        Outcome::WrittenOff(WriteOffReason::NoResponseId)
    );
    assert_eq!(
        outcome_of(&entries, unknown_young).outcome,
        Outcome::Waiting
    );
    assert!(outcome_of(&entries, gone_old).escalate);
    assert!(!outcome_of(&entries, done).escalate);

    let counters = world.ledger.counters("openai:small", 1).unwrap().unwrap();
    // Settled for 14; two written off at 1,000; three still held at 1,000.
    assert_eq!((counters.consumed, counters.reserved), (14 + 2_000, 3_000));

    let again = world.sweep();
    assert_eq!(
        again.len(),
        3,
        "settled and written-off dispatches are gone"
    );
    assert_eq!(
        outcome_of(&again, running).outcome,
        Outcome::Waiting,
        "backing off"
    );
    assert_eq!(
        outcome_of(&again, gone_young).outcome,
        Outcome::Waiting,
        "backing off"
    );
}

#[test]
fn weak_evidence_is_retried_with_a_growing_wait() {
    for id in ["resp_down", "resp_lost", "resp_garbled", "resp_other"] {
        let mut world = World::new();
        let held = world.dispatched(NOW - 1_000, Some(id));
        let mut wait = 60 * SECOND;
        for _ in 0..6 {
            let entries = world.sweep();
            assert!(
                matches!(outcome_of(&entries, held).outcome, Outcome::RetryLater(_)),
                "{id}"
            );
            assert!(outcome_of(&entries, held).escalate);
            world.now += wait - 1;
            assert_eq!(outcome_of(&world.sweep(), held).outcome, Outcome::Waiting);
            world.now += 1;
            wait = (wait * 2).min(600 * SECOND);
        }
        let counters = world.ledger.counters("openai:small", 1).unwrap().unwrap();
        assert_eq!((counters.consumed, counters.reserved), (0, 1_000));
    }
}

#[test]
fn only_a_200_has_a_body_to_read() {
    let body = || Ok(b"{}".to_vec());
    assert!(matches!(Answer::of(200, body()), Answer::Body(bytes) if bytes == b"{}"));
    assert!(matches!(
        Answer::of(200, Err("cut off".into())),
        Answer::Failed(detail) if detail == "cut off"
    ));
    for status in [199, 201, 204, 301, 404, 500] {
        assert!(matches!(Answer::of(status, body()), Answer::Status(s) if s == status));
        assert!(matches!(
            Answer::of(status, Err("cut off".into())),
            Answer::Status(s) if s == status
        ));
    }
}
