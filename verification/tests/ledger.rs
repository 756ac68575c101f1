use std::collections::{BTreeMap, BTreeSet};

use quotamiser::error::LedgerError;
use quotamiser::hwm::HighWaterMark;
use quotamiser::ledger::{Admission, Ledger, Refusal, ReservationId, ReservationRequest};
use quotamiser::requests::{RequestSlot, RequestWindow};
use quotamiser::rollover::RolloverOutcome;
use quotamiser::state::State;
use quotamiser::tables::Tables;
use quotamiser::transitions::{CompletedResponse, Settlement, Usage, UsageDefect};
use quotamiser::trust::{Assessment, TrustVerdict, UnknownReason};

const POOLS: [&str; 2] = ["openai:large", "openai:small"];
const GRANTS: [u64; 2] = [1_000, 5_000];
const MODELS: [&str; 2] = ["sol-snapshot", "terra-snapshot"];
const TIER: &str = "default";
const REV: i64 = 1;
const SAFETY: &str = "data_sharing";
const TTL: i64 = 1_000_000_000;
const BUDGET: u64 = 3_000;

fn grants() -> Vec<(String, u64)> {
    POOLS
        .iter()
        .zip(GRANTS)
        .map(|(p, g)| (p.to_string(), g))
        .collect()
}

/// A ledger with its external record.
struct Store {
    ledger: Ledger,
    external: Option<HighWaterMark>,
}

impl Store {
    fn open(tables: Tables, external: Option<HighWaterMark>) -> (Store, Assessment) {
        let (ledger, assessment) = Ledger::open(tables, Ok(external)).unwrap();
        (Store { ledger, external }, assessment)
    }

    fn recover(&mut self) {
        let anchor = self.ledger.recovery_anchor(self.external).unwrap();
        let before = self.external;
        self.external = Some(anchor);
        self.ledger
            .adopt_recovered_consumption(&[], before)
            .unwrap();
    }

    fn begin_dispatch(&mut self, id: ReservationId) -> Result<(), LedgerError> {
        let mark = self.ledger.dispatch_mark(id)?;
        self.external = Some(mark);
        self.ledger.begin_dispatch(id, mark)
    }

    fn reopen(self, clean: bool) -> (Store, Assessment) {
        let external = self.external;
        let tables = if clean {
            self.ledger.close().unwrap()
        } else {
            self.ledger.tables
        };
        Store::open(tables, external)
    }
}

/// A first run: uninitialized, then today's epoch, then an empty recovery.
fn bootstrap(budget: u64) -> Store {
    let (mut store, assessment) = Store::open(Tables::fresh(), None);
    assert_eq!(
        assessment.verdict,
        TrustVerdict::Unknown(UnknownReason::Uninitialized)
    );
    store.ledger.rollover(1, &grants()).unwrap();
    store.recover();
    store
        .ledger
        .revalidate_safety_input(SAFETY, 0, TTL, budget)
        .unwrap();
    store
}

fn request(pool: usize, liability: u64) -> ReservationRequest {
    ReservationRequest {
        pool_id: POOLS[pool].into(),
        liability,
        request_digest: "digest".into(),
        model_snapshot: MODELS[pool].into(),
        service_tier: TIER.into(),
        accounting_rev: REV,
        required_safety_inputs: vec![SAFETY.into()],
    }
}

fn response(pool: usize, usage: Option<(i64, i64)>) -> CompletedResponse {
    CompletedResponse {
        usage: usage.map(|(input_tokens, output_tokens)| Usage {
            input_tokens,
            output_tokens,
        }),
        model: MODELS[pool].into(),
        service_tier: TIER.into(),
    }
}

fn reserved(admission: Admission) -> ReservationId {
    match admission {
        Admission::Reserved(id) => id,
        other => panic!("expected a reservation, got {other:?}"),
    }
}

#[test]
fn an_untrusted_ledger_admits_nothing() {
    let (mut store, _) = Store::open(Tables::fresh(), None);
    store.ledger.rollover(1, &grants()).unwrap();
    assert!(matches!(
        store.ledger.reserve(&request(1, 1), 1).unwrap(),
        Admission::Refused(Refusal::Untrusted(_))
    ));
}

#[test]
fn the_liability_not_an_estimate_controls_inventory() {
    let mut ledger = bootstrap(1_000_000).ledger;
    reserved(ledger.reserve(&request(0, 400), 1).unwrap());
    reserved(ledger.reserve(&request(0, 400), 2).unwrap());
    assert_eq!(
        ledger.reserve(&request(0, 400), 3).unwrap(),
        Admission::Refused(Refusal::InsufficientQuota {
            remaining: 200,
            liability: 400
        })
    );
}

#[test]
fn rollover_reserves_the_carried_liability_in_the_new_epoch() {
    let mut store = bootstrap(1_000_000);
    let id = reserved(store.ledger.reserve(&request(0, 600), 1).unwrap());
    store.begin_dispatch(id).unwrap();
    let mut ledger = store.ledger;

    assert_eq!(
        ledger.rollover(2, &grants()).unwrap(),
        RolloverOutcome::Advanced { carried: 1 }
    );
    assert_eq!(ledger.counters(POOLS[0], 2).unwrap().unwrap().reserved, 600);
    assert!(matches!(
        ledger.reserve(&request(0, 500), 2).unwrap(),
        Admission::Refused(Refusal::InsufficientQuota { remaining: 400, .. })
    ));

    assert_eq!(
        ledger.rollover(2, &grants()).unwrap(),
        RolloverOutcome::AlreadyCurrent
    );
    assert_eq!(ledger.counters(POOLS[0], 2).unwrap().unwrap().reserved, 600);

    ledger.attach_response_id(id, "resp_1").unwrap();
    ledger
        .settle(id, &response(0, Some((60, 40))), REV, 3)
        .unwrap();
    for epoch in [1, 2] {
        let counters = ledger.counters(POOLS[0], epoch).unwrap().unwrap();
        assert_eq!(
            (counters.reserved, counters.consumed),
            (0, 100),
            "epoch {epoch}"
        );
    }
}

#[test]
fn untrustworthy_usage_is_written_off_and_latches_the_pool() {
    let mut store = bootstrap(1_000_000);
    let id = reserved(store.ledger.reserve(&request(1, 300), 1).unwrap());
    store.begin_dispatch(id).unwrap();
    let mut ledger = store.ledger;
    assert_eq!(
        ledger.settle(id, &response(1, None), REV, 2).unwrap(),
        Settlement::WrittenOff(UsageDefect::Missing)
    );
    assert_eq!(ledger.counters(POOLS[1], 1).unwrap().unwrap().consumed, 300);
    assert!(matches!(
        ledger.reserve(&request(1, 1), 3).unwrap(),
        Admission::Refused(Refusal::Latched { .. })
    ));
}

#[test]
fn an_overrun_is_recorded_as_reported_and_latches_the_model() {
    let mut store = bootstrap(1_000_000);
    let id = reserved(store.ledger.reserve(&request(0, 100), 1).unwrap());
    store.begin_dispatch(id).unwrap();
    let mut ledger = store.ledger;
    assert_eq!(
        ledger
            .settle(id, &response(0, Some((80, 40))), REV, 2)
            .unwrap(),
        Settlement::Settled {
            actual: 120,
            overrun: true
        }
    );
    assert_eq!(ledger.counters(POOLS[0], 1).unwrap().unwrap().consumed, 120);
    match ledger.reserve(&request(0, 1), 3).unwrap() {
        Admission::Refused(Refusal::Latched { scope, .. }) => {
            assert_eq!(scope, "model:sol-snapshot")
        }
        other => panic!("expected a model latch, got {other:?}"),
    }
}

#[test]
fn the_safety_budget_is_debited_not_merely_checked() {
    let mut ledger = bootstrap(10).ledger;
    reserved(ledger.reserve(&request(1, 9), 1).unwrap());
    assert_eq!(
        ledger.reserve(&request(1, 9), 2).unwrap(),
        Admission::Refused(Refusal::SafetyBudgetExhausted {
            key: SAFETY.into(),
            remaining: 1
        })
    );
}

#[test]
fn an_expired_or_backdated_safety_input_refuses() {
    let mut ledger = bootstrap(1_000).ledger;
    ledger
        .revalidate_safety_input(SAFETY, 100, 50, 1_000)
        .unwrap();
    for now in [150, 99] {
        assert!(matches!(
            ledger.reserve(&request(1, 1), now).unwrap(),
            Admission::Refused(Refusal::SafetyInputExpired(_))
        ));
    }
}

#[test]
fn a_restored_snapshot_is_detected_as_rollback() {
    let settle_one = |store: &mut Store, now: i64| {
        let id = reserved(store.ledger.reserve(&request(1, 50), now).unwrap());
        store.begin_dispatch(id).unwrap();
        store.ledger.attach_response_id(id, "resp").unwrap();
        store
            .ledger
            .settle(id, &response(1, Some((10, 10))), REV, now)
            .unwrap();
    };
    let first_run = || {
        let mut store = bootstrap(1_000_000);
        settle_one(&mut store, 1);
        store
    };
    let snapshot = first_run().ledger.close().unwrap();

    let (mut store, assessment) = first_run().reopen(true);
    assert_eq!(assessment.verdict, TrustVerdict::Trusted);
    settle_one(&mut store, 2);
    let external = store.external;
    store.ledger.close().unwrap();

    let (_, assessment) = Store::open(snapshot, external);
    assert_eq!(
        assessment.verdict,
        TrustVerdict::Unknown(UnknownReason::LedgerRolledBack)
    );
}

#[test]
fn latches_refuse_until_they_are_cleared() {
    let mut ledger = bootstrap(1_000).ledger;
    ledger
        .set_latch("global", "stopped by hand", Some("ticket"), 5)
        .unwrap();
    assert_eq!(
        ledger.reserve(&request(1, 1), 6).unwrap(),
        Admission::Refused(Refusal::Latched {
            scope: "global".into(),
            reason: "stopped by hand".into()
        })
    );
    assert_eq!(ledger.clear_latches("openai:small", "me", 7), Ok(0));
    assert_eq!(ledger.clear_latches("global", "me", 8), Ok(1));
    assert_eq!(ledger.clear_latches("global", "me", 9), Ok(0));
    reserved(ledger.reserve(&request(1, 1), 10).unwrap());
}

#[test]
fn a_missing_input_and_a_closed_pool_are_refused() {
    let mut ledger = bootstrap(1_000).ledger;
    let mut elsewhere = request(1, 1);
    elsewhere.pool_id = "openai:other".into();
    assert_eq!(
        ledger.reserve(&elsewhere, 1).unwrap(),
        Admission::Refused(Refusal::PoolNotOpen {
            pool_id: "openai:other".into(),
            epoch: 1
        })
    );
    ledger.invalidate_safety_input(SAFETY).unwrap();
    assert_eq!(
        ledger.reserve(&request(1, 1), 2).unwrap(),
        Admission::Refused(Refusal::SafetyInputMissing(SAFETY.into()))
    );
}

#[test]
fn liabilities_and_budgets_that_do_not_fit_are_errors() {
    let mut ledger = bootstrap(1_000).ledger;
    assert_eq!(
        ledger.reserve(&request(1, u64::MAX), 1),
        Err(LedgerError::Overflow)
    );
    assert_eq!(
        ledger.revalidate_safety_input(SAFETY, 0, TTL, u64::MAX),
        Err(LedgerError::Overflow)
    );
    assert_eq!(
        ledger.revalidate_safety_input(SAFETY, 0, 0, 1),
        Err(LedgerError::ConstraintViolated)
    );
}

#[test]
fn an_unknown_reservation_is_named() {
    let mut ledger = bootstrap(1_000).ledger;
    assert_eq!(
        ledger.write_off(ReservationId(77)),
        Err(LedgerError::NotFound(77))
    );
    assert_eq!(
        ledger.reservation_state(ReservationId(77)),
        Err(LedgerError::NotFound(77))
    );
}

#[test]
fn open_dispatches_are_listed_once_each() {
    let mut store = bootstrap(1_000_000);
    let a = reserved(store.ledger.reserve(&request(0, 10), 1).unwrap());
    let b = reserved(store.ledger.reserve(&request(1, 20), 2).unwrap());
    reserved(store.ledger.reserve(&request(1, 30), 3).unwrap());
    store.begin_dispatch(a).unwrap();
    store.begin_dispatch(b).unwrap();
    store.ledger.attach_response_id(a, "resp_a").unwrap();
    store.ledger.mark_id_unknown(b).unwrap();
    store.ledger.rollover(2, &grants()).unwrap();
    let open = store.ledger.open_dispatches().unwrap();
    let seen: Vec<_> = open
        .iter()
        .map(|d| (d.id, d.state, d.response_id.clone()))
        .collect();
    assert_eq!(
        seen,
        [
            (a, State::DispatchedWithId, Some("resp_a".to_string())),
            (b, State::DispatchedIdUnknown, None),
        ]
    );
}

#[test]
fn recovery_raises_consumption_and_restores_trust() {
    let (mut store, _) = Store::open(Tables::fresh(), None);
    store.ledger.rollover(1, &grants()).unwrap();
    let anchor = store.ledger.recovery_anchor(None).unwrap();
    store
        .ledger
        .adopt_recovered_consumption(&[(POOLS[0].into(), 1, 250)], None)
        .unwrap();
    assert_eq!(store.ledger.trust(), TrustVerdict::Trusted);
    assert_eq!(anchor.generation, store.ledger.meta().unwrap().generation);
    store
        .ledger
        .adopt_recovered_consumption(&[(POOLS[0].into(), 1, 100)], Some(anchor))
        .unwrap();
    let counters = store.ledger.counters(POOLS[0], 1).unwrap().unwrap();
    assert_eq!(counters.consumed, 250);
    assert!(matches!(
        store
            .ledger
            .adopt_recovered_consumption(&[(POOLS[0].into(), 9, 1)], Some(anchor)),
        Err(LedgerError::Integrity(_))
    ));
}

#[test]
fn a_rollover_without_a_grant_for_a_held_pool_is_refused() {
    let mut store = bootstrap(1_000_000);
    reserved(store.ledger.reserve(&request(0, 10), 1).unwrap());
    assert!(matches!(
        store.ledger.rollover(2, &[(POOLS[1].to_string(), 5_000)]),
        Err(LedgerError::Integrity(_))
    ));
    assert_eq!(store.ledger.current_epoch(), Ok(1));
}

#[test]
fn a_dispatch_does_not_begin_from_another_mark() {
    let mut store = bootstrap(1_000_000);
    let id = reserved(store.ledger.reserve(&request(0, 10), 1).unwrap());
    let mark = store.ledger.dispatch_mark(id).unwrap();
    let other = HighWaterMark {
        generation: mark.generation + 1,
        ..mark
    };
    assert!(matches!(
        store.ledger.begin_dispatch(id, other),
        Err(LedgerError::Integrity(_))
    ));
    assert_eq!(store.ledger.reservation_state(id), Ok(State::Reserved));
}

#[test]
fn usage_is_believed_only_where_it_can_be() {
    let cases: [(CompletedResponse, i64, UsageDefect); 4] = [
        (response(0, Some((-1, 1))), REV, UsageDefect::Negative),
        (
            response(0, Some((i64::MAX, 1))),
            REV,
            UsageDefect::Overflow,
        ),
        (
            CompletedResponse {
                model: "another".into(),
                ..response(0, Some((1, 1)))
            },
            REV,
            UsageDefect::ModelMismatch,
        ),
        (
            response(0, Some((1, 1))),
            REV + 1,
            UsageDefect::AccountingRevisionMismatch,
        ),
    ];
    for (answer, rev, defect) in cases {
        let mut store = bootstrap(1_000_000);
        let id = reserved(store.ledger.reserve(&request(0, 10), 1).unwrap());
        store.begin_dispatch(id).unwrap();
        assert_eq!(
            store.ledger.settle(id, &answer, rev, 2),
            Ok(Settlement::WrittenOff(defect))
        );
        let counters = store.ledger.counters(POOLS[0], 1).unwrap().unwrap();
        assert_eq!((counters.consumed, counters.reserved), (10, 0));
    }
}

#[test]
fn damaged_tables_do_not_open() {
    let mut store = bootstrap(1_000_000);
    reserved(store.ledger.reserve(&request(0, 10), 1).unwrap());
    let mut tables = store.ledger.tables;
    tables.pools[0].reserved = 11;
    assert!(matches!(
        Ledger::open(tables, Ok(store.external)),
        Err(LedgerError::Integrity(_))
    ));
}

// ---------------------------------------------------------------------------
// Requests counted by the day.

const PROVIDER: &str = "openrouter:free";
const WINDOW: RequestWindow = RequestWindow {
    max_in_window: 3,
    window_seconds: 60,
};

fn counting_ledger() -> Ledger {
    Store::open(Tables::fresh(), None).0.ledger
}

#[test]
fn slots_are_taken_until_the_day_is_spent() {
    let mut ledger = counting_ledger();
    // Far apart in time, so only the daily limit can bite.
    for expected in 1..=5 {
        let slot = ledger
            .take_request_slot(PROVIDER, 1, 5, WINDOW, expected * 1_000)
            .unwrap();
        assert_eq!(
            slot,
            RequestSlot::Granted {
                used: expected,
                limit: 5
            }
        );
    }
    assert_eq!(
        ledger
            .take_request_slot(PROVIDER, 1, 5, WINDOW, 9_000)
            .unwrap(),
        RequestSlot::Exhausted { used: 5, limit: 5 }
    );
    assert_eq!(ledger.request_counts(PROVIDER, 1).unwrap(), Some((5, 5)));
}

#[test]
fn a_failed_request_still_spends_its_slot() {
    let mut ledger = counting_ledger();
    ledger
        .take_request_slot(PROVIDER, 1, 50, WINDOW, 1_000)
        .unwrap();
    // Whatever the outcome, there is no call that gives the slot back.
    assert_eq!(ledger.request_counts(PROVIDER, 1).unwrap(), Some((1, 50)));
}

#[test]
fn the_short_window_holds_requests_back_without_spending_them() {
    let mut ledger = counting_ledger();
    for _ in 0..WINDOW.max_in_window {
        assert!(matches!(
            ledger
                .take_request_slot(PROVIDER, 1, 50, WINDOW, 1_000)
                .unwrap(),
            RequestSlot::Granted { .. }
        ));
    }
    let held = ledger
        .take_request_slot(PROVIDER, 1, 50, WINDOW, 1_010)
        .unwrap();
    assert_eq!(
        held,
        RequestSlot::WindowFull {
            retry_after_seconds: 50
        },
        "it waits for the oldest entry to leave the window"
    );
    assert_eq!(
        ledger.request_counts(PROVIDER, 1).unwrap(),
        Some((3, 50)),
        "being held back spends nothing"
    );

    // Once the window has passed, sending resumes.
    assert!(matches!(
        ledger
            .take_request_slot(PROVIDER, 1, 50, WINDOW, 1_061)
            .unwrap(),
        RequestSlot::Granted { used: 4, .. }
    ));
}

#[test]
fn the_window_survives_reopening_the_ledger() {
    let tables = {
        let mut ledger = counting_ledger();
        for _ in 0..WINDOW.max_in_window {
            ledger
                .take_request_slot(PROVIDER, 1, 50, WINDOW, 1_000)
                .unwrap();
        }
        ledger.close().unwrap()
    };
    let mut reopened = Store::open(tables, None).0.ledger;
    assert_eq!(
        reopened
            .take_request_slot(PROVIDER, 1, 50, WINDOW, 1_005)
            .unwrap(),
        RequestSlot::WindowFull {
            retry_after_seconds: 55
        },
        "a restart does not forget what it just sent"
    );
}

#[test]
fn each_epoch_counts_separately() {
    let mut ledger = counting_ledger();
    ledger
        .take_request_slot(PROVIDER, 1, 1, WINDOW, 1_000)
        .unwrap();
    assert_eq!(
        ledger
            .take_request_slot(PROVIDER, 1, 1, WINDOW, 2_000)
            .unwrap(),
        RequestSlot::Exhausted { used: 1, limit: 1 }
    );
    assert_eq!(
        ledger
            .take_request_slot(PROVIDER, 2, 1, WINDOW, 90_000)
            .unwrap(),
        RequestSlot::Granted { used: 1, limit: 1 },
        "the next day starts at zero"
    );
}

#[test]
fn old_window_entries_are_pruned() {
    let mut ledger = counting_ledger();
    for at in [1_000, 1_010, 1_020] {
        ledger
            .take_request_slot(PROVIDER, 1, 50, WINDOW, at)
            .unwrap();
    }
    ledger
        .take_request_slot(PROVIDER, 1, 50, WINDOW, 2_000)
        .unwrap();
    assert_eq!(
        ledger.requests_in_window(PROVIDER, 0).unwrap(),
        1,
        "entries older than the window are removed"
    );
}

// ---------------------------------------------------------------------------
// Random histories against a ghost model of every request's maximum upstream
// consumption, per pool and epoch. The ledger's counters are checked against
// the ghost, and the ghost against the grant.

struct Dice(u64);

impl Dice {
    fn roll(&mut self, n: u64) -> u64 {
        self.0 = self
            .0
            .wrapping_mul(6_364_136_223_846_793_005)
            .wrapping_add(1_442_695_040_888_963_407);
        (self.0 >> 33) % n
    }
}

#[derive(Debug, Clone)]
struct Shadow {
    id: ReservationId,
    pool: usize,
    liability: i64,
    epochs: Vec<i64>,
    state: State,
    settled: Option<i64>,
}

#[derive(Debug, Default)]
struct Model {
    requests: Vec<Shadow>,
    epoch: i64,
    budget: i64,
    latched_pools: BTreeSet<usize>,
    latched_models: BTreeSet<usize>,
    overrun_excess: BTreeMap<(usize, i64), i64>,
}

impl Model {
    fn charged(&self, pool: usize, epoch: i64) -> impl Iterator<Item = &Shadow> {
        self.requests
            .iter()
            .filter(move |r| r.pool == pool && r.epochs.contains(&epoch))
    }
    fn reserved(&self, pool: usize, epoch: i64) -> i64 {
        self.charged(pool, epoch)
            .filter(|r| r.state.is_active())
            .map(|r| r.liability)
            .sum()
    }
    fn consumed(&self, pool: usize, epoch: i64) -> i64 {
        self.charged(pool, epoch)
            .map(|r| match r.state {
                State::Settled => r.settled.unwrap(),
                State::ConsumedUnrecoverable => r.liability,
                _ => 0,
            })
            .sum()
    }
    fn pick(&self, dice: &mut Dice) -> Option<usize> {
        if self.requests.is_empty() {
            None
        } else {
            Some(dice.roll(self.requests.len() as u64) as usize)
        }
    }
    fn expected_refusal(&self, pool: usize, liability: i64) -> Option<&'static str> {
        if self.latched_pools.contains(&pool) || self.latched_models.contains(&pool) {
            return Some("latched");
        }
        if self.budget < liability {
            return Some("budget");
        }
        let headroom =
            GRANTS[pool] as i64 - self.reserved(pool, self.epoch) - self.consumed(pool, self.epoch);
        (headroom < liability).then_some("quota")
    }
    fn normalize_after_restart(&mut self, promoted: Option<ReservationId>) {
        for r in &mut self.requests {
            if Some(r.id) == promoted {
                assert_eq!(r.state, State::Reserved);
                r.state = State::DispatchedIdUnknown;
            } else if r.state == State::Dispatching {
                r.state = State::DispatchedIdUnknown;
            } else if r.state == State::Reserved {
                r.state = State::ReleasedUnsent;
            }
        }
    }
}

fn refusal_kind(refusal: &Refusal) -> &'static str {
    match refusal {
        Refusal::Untrusted(_) => "untrusted",
        Refusal::Latched { .. } => "latched",
        Refusal::SafetyInputMissing(_) => "safety-missing",
        Refusal::SafetyInputExpired(_) => "safety-expired",
        Refusal::SafetyBudgetExhausted { .. } => "budget",
        Refusal::PoolNotOpen { .. } => "pool-not-open",
        Refusal::InsufficientQuota { .. } => "quota",
        Refusal::TooManyInFlight { .. } => "in-flight",
    }
}

fn expect_legal<T>(result: Result<T, LedgerError>, legal: bool) -> Option<T> {
    match (result, legal) {
        (Ok(value), true) => Some(value),
        (Err(LedgerError::IllegalTransition { .. }), false) => None,
        (Ok(_), false) => panic!("the ledger allowed a transition the model forbids"),
        (Err(err), _) => panic!("unexpected ledger error (legal = {legal}): {err:?}"),
    }
}

fn check(ledger: &Ledger, model: &Model) {
    ledger.check_integrity().unwrap();
    for pool in 0..POOLS.len() {
        for epoch in 1..=model.epoch {
            let counters = ledger.counters(POOLS[pool], epoch).unwrap().unwrap();
            let (ghost_reserved, ghost_consumed) =
                (model.reserved(pool, epoch), model.consumed(pool, epoch));
            assert_eq!(
                counters.reserved, ghost_reserved,
                "reserved, pool {pool} epoch {epoch}"
            );
            assert_eq!(
                counters.consumed, ghost_consumed,
                "consumed, pool {pool} epoch {epoch}"
            );
            // The property that costs money: everything that may reach
            // upstream fits the grant, except usage the provider reported
            // beyond its own limit, which latches.
            let excess = model
                .overrun_excess
                .get(&(pool, epoch))
                .copied()
                .unwrap_or(0);
            assert!(
                ghost_reserved + ghost_consumed <= GRANTS[pool] as i64 + excess,
                "pool {pool} epoch {epoch}: {ghost_reserved} + {ghost_consumed} exceeds the grant"
            );
        }
    }
}

fn run(dice: &mut Dice, steps: i64) {
    let mut store = bootstrap(BUDGET);
    let mut model = Model {
        epoch: 1,
        budget: BUDGET as i64,
        ..Model::default()
    };

    for now in 1..=steps {
        match dice.roll(23) {
            0..=4 => {
                let pool = dice.roll(2) as usize;
                let liability = 1 + dice.roll(700);
                let expected = model.expected_refusal(pool, liability as i64);
                match store
                    .ledger
                    .reserve(&request(pool, liability), now)
                    .unwrap()
                {
                    Admission::Reserved(id) => {
                        assert_eq!(expected, None, "the ledger admitted what the model refuses");
                        model.budget -= liability as i64;
                        model.requests.push(Shadow {
                            id,
                            pool,
                            liability: liability as i64,
                            epochs: vec![model.epoch],
                            state: State::Reserved,
                            settled: None,
                        });
                    }
                    Admission::Refused(refusal) => {
                        assert_eq!(Some(refusal_kind(&refusal)), expected, "{refusal:?}")
                    }
                }
            }
            5..=8 => {
                if let Some(i) = model.pick(dice) {
                    let legal = model.requests[i].state == State::Reserved;
                    if expect_legal(store.begin_dispatch(model.requests[i].id), legal).is_some() {
                        model.requests[i].state = State::Dispatching;
                    }
                }
            }
            9..=10 => {
                if let Some(i) = model.pick(dice) {
                    let legal = model.requests[i].state == State::Dispatching;
                    let id = model.requests[i].id;
                    let name = format!("resp_{}", id.0);
                    if expect_legal(store.ledger.attach_response_id(id, &name), legal).is_some() {
                        model.requests[i].state = State::DispatchedWithId;
                    }
                }
            }
            11 => {
                if let Some(i) = model.pick(dice) {
                    let legal = model.requests[i].state == State::Dispatching;
                    let id = model.requests[i].id;
                    if expect_legal(store.ledger.mark_id_unknown(id), legal).is_some() {
                        model.requests[i].state = State::DispatchedIdUnknown;
                    }
                }
            }
            12..=14 => {
                if let Some(i) = model.pick(dice) {
                    let r = model.requests[i].clone();
                    let permille = dice.roll(1_001) as i64;
                    let legal = matches!(r.state, State::Dispatching | State::DispatchedWithId);
                    let actual = if dice.roll(20) == 0 {
                        r.liability + 1 + permille
                    } else {
                        r.liability * permille / 1000
                    };
                    let usage = Some((actual / 2, actual - actual / 2));
                    if let Some(outcome) = expect_legal(
                        store
                            .ledger
                            .settle(r.id, &response(r.pool, usage), REV, now),
                        legal,
                    ) {
                        assert_eq!(
                            outcome,
                            Settlement::Settled {
                                actual,
                                overrun: actual > r.liability
                            }
                        );
                        model.requests[i].state = State::Settled;
                        model.requests[i].settled = Some(actual);
                        if actual > r.liability {
                            model.latched_models.insert(r.pool);
                            for epoch in &r.epochs {
                                *model.overrun_excess.entry((r.pool, *epoch)).or_default() +=
                                    actual - r.liability;
                            }
                        }
                    }
                }
            }
            15 => {
                if let Some(i) = model.pick(dice) {
                    let r = model.requests[i].clone();
                    let legal = matches!(r.state, State::Dispatching | State::DispatchedWithId);
                    if expect_legal(
                        store.ledger.settle(r.id, &response(r.pool, None), REV, now),
                        legal,
                    )
                    .is_some()
                    {
                        model.requests[i].state = State::ConsumedUnrecoverable;
                        model.latched_pools.insert(r.pool);
                    }
                }
            }
            16 => {
                if let Some(i) = model.pick(dice) {
                    let legal = model.requests[i].state.possibly_sent();
                    let id = model.requests[i].id;
                    if expect_legal(store.ledger.write_off(id), legal).is_some() {
                        model.requests[i].state = State::ConsumedUnrecoverable;
                    }
                }
            }
            17 => {
                if let Some(i) = model.pick(dice) {
                    let legal = model.requests[i].state == State::Reserved;
                    let id = model.requests[i].id;
                    if expect_legal(store.ledger.release_unsent(id), legal).is_some() {
                        model.requests[i].state = State::ReleasedUnsent;
                    }
                }
            }
            18 => {
                if let Some(i) = model.pick(dice) {
                    let legal = model.requests[i].state == State::Dispatching;
                    let id = model.requests[i].id;
                    if expect_legal(store.ledger.release_rejected(id), legal).is_some() {
                        model.requests[i].state = State::RejectedBeforeProcessing;
                    }
                }
            }
            19 => {
                model.epoch += 1;
                let active = model
                    .requests
                    .iter()
                    .filter(|r| r.state.is_active())
                    .count();
                assert_eq!(
                    store.ledger.rollover(model.epoch, &grants()).unwrap(),
                    RolloverOutcome::Advanced { carried: active }
                );
                let epoch = model.epoch;
                for r in model.requests.iter_mut().filter(|r| r.state.is_active()) {
                    r.epochs.push(epoch);
                }
            }
            20 => {
                store
                    .ledger
                    .revalidate_safety_input(SAFETY, now, TTL, BUDGET)
                    .unwrap();
                model.budget = BUDGET as i64;
            }
            21 => {
                if let Some(i) = model.pick(dice) {
                    let r = model.requests[i].clone();
                    if r.state == State::Reserved {
                        // The external record advanced; the ledger never followed.
                        let meta = store.ledger.meta().unwrap();
                        store.external = Some(HighWaterMark {
                            generation: meta.generation + 1,
                            cumulative_liability: meta.cumulative_liability + r.liability,
                            last_reservation: r.id.0,
                        });
                        let (reopened, assessment) = store.reopen(false);
                        store = reopened;
                        assert_eq!(assessment.promote_to_id_unknown, Some(r.id.0));
                        assert_eq!(
                            assessment.verdict,
                            TrustVerdict::Unknown(UnknownReason::UncleanShutdown)
                        );
                        model.normalize_after_restart(Some(r.id));
                        store.recover();
                    }
                }
            }
            _ => {
                let clean = dice.roll(2) == 0;
                let (reopened, assessment) = store.reopen(clean);
                store = reopened;
                assert_eq!(assessment.promote_to_id_unknown, None);
                model.normalize_after_restart(None);
                if clean {
                    assert_eq!(assessment.verdict, TrustVerdict::Trusted);
                } else {
                    assert_eq!(
                        assessment.verdict,
                        TrustVerdict::Unknown(UnknownReason::UncleanShutdown)
                    );
                    store.recover();
                }
            }
        }
        check(&store.ledger, &model);
    }
}

#[test]
fn upstream_liability_never_exceeds_the_grant() {
    let mut dice = Dice(20_260_912);
    for _ in 0..200 {
        run(&mut dice, 48);
    }
}

#[test]
fn a_reservation_of_seventy_seven_settles_at_eighteen() {
    let mut store = bootstrap(1_000_000);
    let id = reserved(store.ledger.reserve(&request(0, 13 + 64), 1).unwrap());
    assert_eq!(store.ledger.tables.pools[0].reserved, 77);
    assert_eq!(store.ledger.tables.pools[0].consumed, 0);
    store.begin_dispatch(id).unwrap();
    store.ledger.attach_response_id(id, "resp_1").unwrap();
    assert_eq!(
        store.ledger.settle(id, &response(0, Some((13, 5))), REV, 2),
        Ok(Settlement::Settled {
            actual: 18,
            overrun: false
        })
    );
    assert_eq!(store.ledger.tables.pools[0].reserved, 0);
    assert_eq!(store.ledger.tables.pools[0].consumed, 18);
}

#[test]
fn a_refused_request_costs_nothing() {
    let mut store = bootstrap(1_000_000);
    reserved(store.ledger.reserve(&request(0, 999), 1).unwrap());
    let before = format!("{:?}", store.ledger.tables);
    assert!(matches!(
        store.ledger.reserve(&request(0, 2), 2).unwrap(),
        Admission::Refused(Refusal::InsufficientQuota {
            remaining: 1,
            liability: 2
        })
    ));
    assert_eq!(format!("{:?}", store.ledger.tables), before);
    reserved(store.ledger.reserve(&request(0, 1), 3).unwrap());
}

#[test]
fn a_rejected_request_gives_everything_back() {
    let mut store = bootstrap(1_000_000);
    let id = reserved(store.ledger.reserve(&request(0, 300), 1).unwrap());
    store.begin_dispatch(id).unwrap();
    store.ledger.release_rejected(id).unwrap();
    assert_eq!(store.ledger.tables.pools[0].reserved, 0);
    assert_eq!(store.ledger.tables.pools[0].consumed, 0);
    assert_eq!(
        store.ledger.reservation_state(id),
        Ok(State::RejectedBeforeProcessing)
    );
}

#[test]
fn an_overrun_counts_only_in_its_own_pool_and_day() {
    let mut store = bootstrap(1_000_000);
    let id = reserved(store.ledger.reserve(&request(0, 900), 1).unwrap());
    let other = reserved(store.ledger.reserve(&request(1, 4_000), 1).unwrap());
    store.begin_dispatch(id).unwrap();
    store.begin_dispatch(other).unwrap();
    assert_eq!(
        store.ledger.settle(id, &response(0, Some((1_000, 400))), REV, 2),
        Ok(Settlement::Settled {
            actual: 1_400,
            overrun: true
        })
    );
    store.ledger.rollover(2, &grants()).unwrap();
    let counters = |pool: usize, epoch: i64| {
        let c = store.ledger.counters(POOLS[pool], epoch).unwrap().unwrap();
        (c.granted, c.consumed, c.reserved)
    };
    // Beyond its grant by no more than the 500 that were reported on top.
    assert_eq!(counters(0, 1), (1_000, 1_400, 0));
    assert_eq!(counters(1, 1), (5_000, 0, 4_000));
    assert_eq!(counters(0, 2), (1_000, 0, 0));
    assert_eq!(counters(1, 2), (5_000, 0, 4_000));
}
