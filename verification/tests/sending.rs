use quotamiser::admission::digest;
use quotamiser::error::LedgerError;
use quotamiser::hwm::HighWaterMark;
use quotamiser::ledger::{
    Admission, Ledger, Refusal, ReservationId, ReservationRequest, MAX_IN_FLIGHT,
};
use quotamiser::requests::{RequestSlot, RequestWindow};
use quotamiser::sending::{SlotAnswer, OPENAI_SCOPE};
use quotamiser::state::State;
use quotamiser::tables::Tables;

const BODY: &[u8] = br#"{"model":"gpt-5.6-terra","input":"hi"}"#;

struct World {
    ledger: Ledger,
    external: Option<HighWaterMark>,
}

impl World {
    fn new() -> World {
        let (mut ledger, _) = Ledger::open(Tables::fresh(), Ok(None)).unwrap();
        ledger
            .rollover(1, &[("openai:small".into(), 1_000_000)])
            .unwrap();
        let external = Some(ledger.recovery_anchor(None).unwrap());
        ledger.adopt_recovered_consumption(&[], None).unwrap();
        World { ledger, external }
    }

    fn try_reserve(&mut self) -> Admission {
        let request = ReservationRequest {
            pool_id: "openai:small".into(),
            liability: 100,
            request_digest: digest(BODY),
            model_snapshot: "gpt-5.6-terra".into(),
            service_tier: "default".into(),
            accounting_rev: 1,
            required_safety_inputs: vec![],
        };
        self.ledger.reserve(&request, 1).unwrap()
    }

    fn reserve(&mut self) -> ReservationId {
        match self.try_reserve() {
            Admission::Reserved(id) => id,
            other => panic!("expected a reservation, got {other:?}"),
        }
    }

    fn send(&mut self, id: ReservationId, body: &[u8]) -> Result<(), LedgerError> {
        self.ledger.may_send(id, body)?;
        let mark = self.ledger.dispatch_mark(id)?;
        self.external = Some(mark);
        self.ledger.begin_sending(id, body, mark)
    }

    fn state(&self, id: ReservationId) -> State {
        self.ledger.reservation_state(id).unwrap()
    }

    fn reopen(self) -> World {
        let tables = self.ledger.close().unwrap();
        let (ledger, _) = Ledger::open(tables, Ok(self.external)).unwrap();
        World {
            ledger,
            external: self.external,
        }
    }
}

#[test]
fn only_the_reserved_body_begins_to_be_sent() {
    let mut world = World::new();
    let id = world.reserve();
    let other = br#"{"model":"gpt-5.6-terra","input":"ho"}"#;
    let mark = world.ledger.dispatch_mark(id).unwrap();
    assert_eq!(
        world.ledger.begin_sending(id, other, mark),
        Err(LedgerError::BodyMismatch(id.0))
    );
    assert_eq!(world.send(id, other), Err(LedgerError::BodyMismatch(id.0)));
    assert_eq!(world.state(id), State::Reserved);
    assert_eq!(world.send(id, BODY), Ok(()));
    assert_eq!(world.state(id), State::Dispatching);
}

#[test]
fn a_mark_that_was_not_written_begins_nothing() {
    let mut world = World::new();
    let id = world.reserve();
    let mark = world.ledger.dispatch_mark(id).unwrap();
    let stale = HighWaterMark {
        generation: mark.generation - 1,
        ..mark
    };
    assert!(matches!(
        world.ledger.begin_sending(id, BODY, stale),
        Err(LedgerError::Integrity(_))
    ));
    assert_eq!(world.state(id), State::Reserved);
}

#[test]
fn an_unknown_reservation_is_sent_nothing() {
    let mut world = World::new();
    assert_eq!(
        world.send(ReservationId(9), BODY),
        Err(LedgerError::NotFound(9))
    );
}

#[test]
fn the_thirty_third_open_dispatch_is_refused() {
    assert_eq!(MAX_IN_FLIGHT, 32);
    let mut world = World::new();
    let ids: Vec<_> = (0..33).map(|_| world.reserve()).collect();
    for id in &ids[..32] {
        world.send(*id, BODY).unwrap();
    }
    let last = ids[32];
    assert_eq!(
        world.send(last, BODY),
        Err(LedgerError::TooManyInFlight { open: 32 })
    );
    assert_eq!(world.state(last), State::Reserved);
    assert_eq!(
        world.try_reserve(),
        Admission::Refused(Refusal::TooManyInFlight { open: 32 })
    );

    // Learning about one ends none; a new day ends none either.
    world.ledger.attach_response_id(ids[0], "resp_0").unwrap();
    world.ledger.mark_id_unknown(ids[1]).unwrap();
    world
        .ledger
        .rollover(2, &[("openai:small".into(), 1_000_000)])
        .unwrap();
    assert_eq!(
        world.try_reserve(),
        Admission::Refused(Refusal::TooManyInFlight { open: 32 })
    );

    world.ledger.release_rejected(ids[2]).unwrap();
    world.reserve();
    assert_eq!(world.send(last, BODY), Ok(()));
}

#[test]
fn a_closed_provider_is_sent_nothing_until_it_is_cleared() {
    let mut world = World::new();
    let waiting = world.reserve();
    world
        .ledger
        .close_provider(OPENAI_SCOPE, 401, 50)
        .unwrap();
    let latch = &world.ledger.tables.latches[0];
    assert_eq!(latch.scope, "global");
    assert_eq!(latch.evidence.as_deref(), Some("status 401"));
    assert_eq!((latch.set_at, &latch.cleared), (50, &None));
    let reason = latch.reason.clone();
    let closed = LedgerError::ProviderClosed {
        scope: "global".into(),
        reason: reason.clone(),
    };
    assert_eq!(world.send(waiting, BODY), Err(closed));
    assert_eq!(world.state(waiting), State::Reserved);

    // A new day and a restart leave it closed.
    world
        .ledger
        .rollover(2, &[("openai:small".into(), 1_000_000)])
        .unwrap();
    let mut world = world.reopen();
    assert_eq!(
        world.try_reserve(),
        Admission::Refused(Refusal::Latched {
            scope: "global".into(),
            reason,
        })
    );
    assert_eq!(
        world.ledger.clear_latches("openai:small", "someone", 60),
        Ok(0)
    );
    assert!(matches!(world.try_reserve(), Admission::Refused(_)));
    assert_eq!(
        world.ledger.clear_latches(OPENAI_SCOPE, "someone", 61),
        Ok(1)
    );
    let id = world.reserve();
    assert_eq!(world.send(id, BODY), Ok(()));
}

#[test]
fn a_closed_route_grants_no_slot_until_it_is_cleared() {
    let window = RequestWindow {
        max_in_window: 20,
        window_seconds: 60,
    };
    let mut world = World::new();
    let granted = |used| {
        Ok(SlotAnswer::Slot(RequestSlot::Granted { used, limit: 50 }))
    };
    let take = |world: &mut World| {
        world
            .ledger
            .take_open_slot("openrouter:free", 1, 50, window, 100)
    };
    assert_eq!(take(&mut world), granted(1));
    world
        .ledger
        .close_provider("openrouter:free", 402, 101)
        .unwrap();
    assert_eq!(take(&mut world), Ok(SlotAnswer::Closed));
    // The other provider is not closed by it.
    let id = world.reserve();
    assert_eq!(world.send(id, BODY), Ok(()));
    world.ledger.release_rejected(id).unwrap();

    let mut world = world.reopen();
    assert_eq!(take(&mut world), Ok(SlotAnswer::Closed));
    assert_eq!(
        world
            .ledger
            .clear_latches("openrouter:free", "someone", 102),
        Ok(1)
    );
    assert_eq!(take(&mut world), granted(2));
}

#[test]
fn each_reason_not_to_send_has_its_sentence() {
    let cases = [
        (
            LedgerError::ProviderClosed {
                scope: "global".into(),
                reason: "status 401".into(),
            },
            "the provider is closed (global): status 401",
        ),
        (
            LedgerError::TooManyInFlight { open: 32 },
            "32 dispatches are still open",
        ),
        (
            LedgerError::BodyMismatch(7),
            "the body is not the one reservation group 7 was made for",
        ),
    ];
    for (error, text) in cases {
        assert_eq!(error.message(), text);
    }
}
