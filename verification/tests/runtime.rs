use quotamiser::admission::{Catalog, CatalogEntry};
use quotamiser::epoch::{epoch_of, ClosedReason, Window};
use quotamiser::hwm::HighWaterMark;
use quotamiser::json::Number;
use quotamiser::ledger::Ledger;
use quotamiser::liability::ModelSpec;
use quotamiser::openrouter::AccountCheck;
use quotamiser::runtime::{
    account_recheck_seconds, admission_policy, check_sharing, dispatch_policy,
    recovered_adoptions, retrieval_policy, rollover_due, safety_budget, sharing_recheck_seconds,
    AccountWatch, Sharing, StartAction, StartEvent, StartPlan, Startup, StartupError,
};
use quotamiser::tables::Tables;
use quotamiser::trust::{TrustVerdict, UnknownReason};
use quotamiser::usage_api::DayUsage;

const MODEL: &str = "gpt-5.6-terra";
const POOL: &str = "openai:small";
const NOW: i64 = 1_789_084_805;

fn entry(pool: &str) -> CatalogEntry {
    CatalogEntry {
        pool_id: pool.into(),
        spec: ModelSpec {
            max_output_tokens: 128_000,
            byte_level_encoding_known: false,
        },
    }
}

fn plan() -> StartPlan {
    StartPlan {
        grants: vec![(POOL.to_string(), 2_500_000)],
        catalog: Catalog {
            models: vec![(MODEL.to_string(), entry(POOL))],
        },
        data_sharing_ttl: 900,
        safety_budget_divisor: 4,
    }
}

fn reported(tokens: u64, outside: u64) -> DayUsage {
    DayUsage {
        tokens_by_model: vec![(MODEL.to_string(), tokens)],
        requests_outside_the_grant: outside,
        requests_of_unknown_tier: 0,
    }
}

/// Starts on stored tables against a provider that reports a day's tokens.
fn start(
    tables: Tables,
    external: &mut Option<HighWaterMark>,
    tokens: u64,
) -> (Ledger, bool) {
    let plan = plan();
    let (mut ledger, assessment) = Ledger::open(tables, Ok(*external)).unwrap();
    let mut state = Startup::Opening;
    let mut event = StartEvent::Opened(Ok(assessment.verdict));
    loop {
        let (next, action) = state.step(&plan, event).expect("the event answers");
        state = next;
        event = match action {
            StartAction::ReadClock => StartEvent::Clock(Ok(NOW)),
            StartAction::RollOver { epoch } => StartEvent::Ledger(
                ledger
                    .rollover(epoch, &plan.grants)
                    .map(|_| ())
                    .map_err(|e| e.message()),
            ),
            StartAction::ReadDay { .. } => StartEvent::Day(Ok(reported(tokens, 0))),
            StartAction::Adopt(adoptions) => {
                let before = *external;
                *external = Some(ledger.recovery_anchor(before).unwrap());
                StartEvent::Ledger(
                    ledger
                        .adopt_recovered_consumption(&adoptions, before)
                        .map_err(|e| e.message()),
                )
            }
            StartAction::Renew { now, ttl, budget } => {
                assert_eq!(budget, 625_000);
                StartEvent::Ledger(
                    ledger
                        .revalidate_safety_input("data_sharing", now, ttl, budget)
                        .map_err(|e| e.message()),
                )
            }
            StartAction::Withdraw => StartEvent::Ledger(
                ledger
                    .invalidate_safety_input("data_sharing")
                    .map_err(|e| e.message()),
            ),
            StartAction::Run { verified } => return (ledger, verified),
            StartAction::Fail(error) => panic!("{}", error.message()),
        };
    }
}

fn consumed(ledger: &Ledger) -> i64 {
    ledger
        .counters(POOL, epoch_of(NOW))
        .unwrap()
        .expect("the pool is open")
        .consumed
}

#[test]
fn a_fresh_ledger_is_recovered_from_usage_reporting_and_closed_clean() {
    let mut external = None;
    let (ledger, verified) = start(Tables::fresh(), &mut external, 5_000);
    assert!(verified);
    assert_eq!(
        ledger.current_epoch(),
        Ok(epoch_of(NOW)),
        "the ledger is rolled over to the epoch trusted time names"
    );
    assert_eq!(
        consumed(&ledger),
        5_000,
        "an untrusted ledger adopts the day's reported consumption"
    );
    let tables = ledger.close().unwrap();
    let (reopened, _) = Ledger::open(tables, Ok(external)).unwrap();
    assert_eq!(
        reopened.trust(),
        TrustVerdict::Trusted,
        "a clean shutdown leaves the ledger trusted"
    );
}

#[test]
fn a_trusted_ledger_is_not_re_adopted_from_usage_reporting() {
    let mut external = None;
    let (ledger, _) = start(Tables::fresh(), &mut external, 5_000);
    assert_eq!(consumed(&ledger), 5_000);
    let tables = ledger.close().unwrap();

    // Usage reporting now claims more. A trusted ledger must not take it: its
    // own record is the inventory, and reporting never reopens capacity.
    let (ledger, _) = start(tables, &mut external, 9_000);
    assert_eq!(
        consumed(&ledger),
        5_000,
        "a trusted ledger keeps its own consumption"
    );
}

#[test]
fn startup_stops_where_it_cannot_go_on() {
    let plan = plan();
    let fails = |state: Startup, event: StartEvent| match state.step(&plan, event) {
        Some((Startup::Failed, StartAction::Fail(error))) => error,
        other => panic!("expected a failure, got {other:?}"),
    };
    let why = || Err("why".to_string());
    assert_eq!(
        fails(Startup::Opening, StartEvent::Opened(Err("why".into()))),
        StartupError::Ledger("why".into())
    );
    let error = fails(
        Startup::Reading { trusted: true },
        StartEvent::Clock(Err("why".into())),
    );
    assert_eq!(error, StartupError::NoTrustedTime("why".into()));
    assert_eq!(
        error.message(),
        "no trusted time: the provider's clock could not be read, and the local clock is not trusted to choose the day (why)"
    );
    assert_eq!(
        fails(
            Startup::Recovering { now: NOW },
            StartEvent::Day(Err("why".into()))
        ),
        StartupError::Recovery("why".into())
    );
    for state in [
        Startup::Rolling {
            trusted: false,
            now: NOW,
        },
        Startup::Adopting { now: NOW },
        Startup::Recording { verified: true },
    ] {
        assert_eq!(
            fails(state, StartEvent::Ledger(why())),
            StartupError::LedgerAccess("why".into())
        );
    }
    assert!(Startup::Opening
        .step(&plan, StartEvent::Clock(Ok(NOW)))
        .is_none());
}

#[test]
fn startup_goes_on_unverified_where_sharing_cannot_be_confirmed() {
    let plan = plan();
    let (state, action) = Startup::Checking { now: NOW }
        .step(&plan, StartEvent::Day(Err("down".into())))
        .unwrap();
    assert_eq!(state, Startup::Running);
    assert!(matches!(action, StartAction::Run { verified: false }));

    let (state, action) = Startup::Checking { now: NOW }
        .step(&plan, StartEvent::Day(Ok(reported(1, 3))))
        .unwrap();
    assert!(matches!(action, StartAction::Withdraw));
    let (_, action) = state.step(&plan, StartEvent::Ledger(Ok(()))).unwrap();
    assert!(matches!(action, StartAction::Run { verified: false }));
}

#[test]
fn an_untrusted_verdict_leads_to_recovery() {
    let plan = plan();
    let verdict = TrustVerdict::Unknown(UnknownReason::UncleanShutdown);
    let (state, _) = Startup::Opening
        .step(&plan, StartEvent::Opened(Ok(verdict)))
        .unwrap();
    assert_eq!(state, Startup::Reading { trusted: false });
    let (state, action) = state.step(&plan, StartEvent::Clock(Ok(NOW))).unwrap();
    assert!(matches!(action, StartAction::RollOver { epoch: 20_707 }));
    let (state, _) = state.step(&plan, StartEvent::Ledger(Ok(()))).unwrap();
    assert_eq!(state, Startup::Recovering { now: NOW });
}

#[test]
fn unknown_models_are_charged_to_every_pool() {
    let catalog = Catalog {
        models: vec![
            ("a".into(), entry("large")),
            ("b".into(), entry("small")),
            ("c".into(), entry("large")),
        ],
    };
    let day = DayUsage {
        tokens_by_model: vec![
            ("a".into(), 10),
            ("c".into(), 5),
            ("stranger".into(), 100),
            ("b".into(), 1),
        ],
        requests_outside_the_grant: 0,
        requests_of_unknown_tier: 0,
    };
    assert_eq!(
        recovered_adoptions(&catalog, &day, 7),
        [("large".to_string(), 7, 115), ("small".to_string(), 7, 101)]
    );
}

#[test]
fn sharing_is_renewed_withdrawn_or_left_to_expire() {
    assert_eq!(check_sharing(Some(&reported(1, 0))), Sharing::Renew);
    assert_eq!(check_sharing(Some(&reported(1, 2))), Sharing::Withdraw);
    assert_eq!(check_sharing(None), Sharing::LeaveToExpire);
}

#[test]
fn intervals_stay_within_their_bounds() {
    assert_eq!(sharing_recheck_seconds(900), 300);
    assert_eq!(sharing_recheck_seconds(30), 60);
    assert_eq!(sharing_recheck_seconds(-1), 60);
    assert_eq!(sharing_recheck_seconds(i64::MAX), 3_600);
    assert_eq!(account_recheck_seconds(900), 300);
    assert_eq!(account_recheck_seconds(0), 60);
    assert_eq!(account_recheck_seconds(30_000), 10_000);
}

#[test]
fn a_budget_is_a_fraction_of_the_smallest_grant() {
    assert_eq!(safety_budget(&vec![], 4), 0);
    let grants = vec![("a".to_string(), 1_000), ("b".to_string(), 402)];
    assert_eq!(safety_budget(&grants, 4), 100);
}

#[test]
fn a_route_is_open_until_its_last_safe_check_expires() {
    let safe = AccountCheck {
        free_tier: true,
        total_credits: Number::Unsigned(0),
        total_usage: Number::Unsigned(0),
        byok_endpoints: None,
    };
    let paying = AccountCheck {
        free_tier: false,
        total_credits: Number::Unsigned(0),
        total_usage: Number::Unsigned(0),
        byok_endpoints: None,
    };
    let mut watch = AccountWatch::new();
    assert!(!watch.is_open(0));
    watch.record(Some(&safe), 100, 900);
    assert!(watch.is_open(999));
    assert!(!watch.is_open(1_000));
    watch.record(Some(&paying), 200, 900);
    assert!(!watch.is_open(201));
    watch.record(Some(&safe), 300, 900);
    watch.record(None, 301, 900);
    assert!(!watch.is_open(302));
    watch.record(Some(&safe), i64::MAX, 900);
    assert_eq!(watch.open_until, Some(i64::MAX));
}

#[test]
fn only_a_due_rollover_is_one() {
    assert_eq!(rollover_due(Window::RolloverDue { epoch: 3 }), Some(3));
    assert_eq!(rollover_due(Window::Open), None);
    assert_eq!(
        rollover_due(Window::Closed(ClosedReason::NearBoundary)),
        None
    );
}

#[test]
fn the_policies_are_what_they_are() {
    assert_eq!(dispatch_policy().id_wait_after_disconnect, 30_000_000_000);
    assert_eq!(dispatch_policy().max_error_body_bytes, 65_536);
    assert_eq!(retrieval_policy().trust_not_found_after, 120_000_000_000);
    assert_eq!(admission_policy().accounting_rev, 1);
    assert_eq!(admission_policy().required_safety_inputs, ["data_sharing"]);
}
