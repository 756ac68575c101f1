//! Starting the proxy, and what the loops that keep admission honest decide
//! while it runs.
//!
//! Startup order matters. Trusted time comes first, because the epoch being
//! spent must be the epoch upstream will charge. The ledger is rolled over to
//! that epoch. Only then, and only if the ledger cannot be trusted, is the
//! day's consumption recovered from the provider's usage reporting; a ledger
//! recovered that way carries no fail-closed guarantee. Finally the
//! data-sharing safety input is checked, without which admission refuses
//! everything.
//!
//! Three loops run afterwards: one re-reads the provider's clock and rolls the
//! ledger over at the boundary, one re-checks data sharing before its
//! verification expires, and one settles dispatches their streams could not.
use vstd::prelude::*;
use vstd::string::*;

use crate::admission::{entry_of, AdmissionPolicy, Catalog, EntryView};
use crate::dispatch::DispatchPolicy;
use crate::epoch::{epoch_of, Window, SECONDS_PER_DAY};
use crate::failure_breaker::{after_failure, new_breaker, BreakerPolicy};
use crate::liability::{EstimatorPolicy, DEFAULT_FRAMING_ALLOWANCE_PER_NODE};
use crate::openrouter::{account_is_safe, AccountCheck};
use crate::inventory::OpenDispatchView;
use crate::retrieval::{
    answer_leads_to, next_delay, older_than, plan_for, AnswerView, Backoff, PlanView,
    RetrievalPolicy, WriteOffReason,
};
use crate::rollover::{adoptions_view, grants_view};
use crate::state::State;
use crate::tables::views;
use crate::text::str_eq;
use crate::trust::TrustVerdict;
use crate::upstream::with_detail;
use crate::usage_api::{
    add_capped, capped_sum, lemma_other_tokens, model_index, tokens_view, with_tokens, DayUsage,
    DayView,
};

verus! {

/// The safety input every admission depends on.
pub const DATA_SHARING: &'static str = "data_sharing";

/// Bumped when the meaning of recorded accounting changes.
pub const ACCOUNTING_REV: i64 = 1;

#[derive(Debug, PartialEq, Eq)]
pub enum StartupError {
    Upstream(String),
    Usage(String),
    Ledger(String),
    LedgerAccess(String),
    NoTrustedTime(String),
    Recovery(String),
}

pub enum StartupErrorView {
    Upstream(Seq<char>),
    Usage(Seq<char>),
    Ledger(Seq<char>),
    LedgerAccess(Seq<char>),
    NoTrustedTime(Seq<char>),
    Recovery(Seq<char>),
}

impl View for StartupError {
    type V = StartupErrorView;

    open spec fn view(&self) -> StartupErrorView {
        match *self {
            StartupError::Upstream(detail) => StartupErrorView::Upstream(detail@),
            StartupError::Usage(detail) => StartupErrorView::Usage(detail@),
            StartupError::Ledger(detail) => StartupErrorView::Ledger(detail@),
            StartupError::LedgerAccess(detail) => StartupErrorView::LedgerAccess(detail@),
            StartupError::NoTrustedTime(detail) => StartupErrorView::NoTrustedTime(detail@),
            StartupError::Recovery(detail) => StartupErrorView::Recovery(detail@),
        }
    }
}

/// Why startup stopped, in words.
pub open spec fn startup_text(error: StartupErrorView) -> Seq<char> {
    match error {
        StartupErrorView::Upstream(detail) => "the upstream client could not be built: "@ + detail,
        StartupErrorView::Usage(detail) => "the usage client could not be built: "@ + detail,
        StartupErrorView::Ledger(detail) => "the ledger could not be opened: "@ + detail,
        StartupErrorView::LedgerAccess(detail) => "the ledger is not reachable: "@ + detail,
        StartupErrorView::NoTrustedTime(detail) =>
            "no trusted time: the provider's clock could not be read, and the local clock is not trusted to choose the day ("@
            + detail + ")"@,
        StartupErrorView::Recovery(detail) =>
            "the ledger could not be recovered from usage reporting: "@ + detail,
    }
}

impl StartupError {
    pub fn message(&self) -> (text: String)
        ensures
            text@ == startup_text(self@),
    {
        match self {
            StartupError::Upstream(detail) => with_detail(
                "the upstream client could not be built: ",
                detail,
            ),
            StartupError::Usage(detail) => with_detail(
                "the usage client could not be built: ",
                detail,
            ),
            StartupError::Ledger(detail) => with_detail("the ledger could not be opened: ", detail),
            StartupError::LedgerAccess(detail) => with_detail(
                "the ledger is not reachable: ",
                detail,
            ),
            StartupError::NoTrustedTime(detail) => {
                let mut text = with_detail(
                    "no trusted time: the provider's clock could not be read, and the local clock is not trusted to choose the day (",
                    detail,
                );
                text.push_str(")");
                text
            },
            StartupError::Recovery(detail) => with_detail(
                "the ledger could not be recovered from usage reporting: ",
                detail,
            ),
        }
    }
}

// ---------------------------------------------------------------------------
// Policies.

/// How dispatches are supervised.
pub open spec fn supervising() -> DispatchPolicy {
    DispatchPolicy {
        id_wait_after_disconnect: 30_000_000_000,
        max_error_body_bytes: 65_536,
        channel_capacity: 32,
        breaker: BreakerPolicy {
            threshold: 3,
            initial_cooldown: 30_000_000_000,
            max_cooldown: 600_000_000_000,
        },
    }
}

/// How open dispatches are retrieved.
pub open spec fn retrieving() -> RetrievalPolicy {
    RetrievalPolicy {
        initial_backoff: 5_000_000_000,
        max_backoff: 60_000_000_000,
        write_off_unknown_after: 300_000_000_000,
        trust_not_found_after: 120_000_000_000,
        escalate_after: 900_000_000_000,
        accounting_rev: ACCOUNTING_REV,
    }
}

/// How dispatches are supervised.
pub fn dispatch_policy() -> (policy: DispatchPolicy)
    ensures
        policy == supervising(),
        policy == (DispatchPolicy {
            id_wait_after_disconnect: 30_000_000_000,
            max_error_body_bytes: 65_536,
            channel_capacity: 32,
            breaker: BreakerPolicy {
                threshold: 3,
                initial_cooldown: 30_000_000_000,
                max_cooldown: 600_000_000_000,
            },
        }),
        policy.breaker.ok(),
{
    DispatchPolicy {
        id_wait_after_disconnect: 30_000_000_000,
        max_error_body_bytes: 65_536,
        channel_capacity: 32,
        breaker: BreakerPolicy::default(),
    }
}

/// How open dispatches are retrieved: retries from 5 to 60 seconds, an unknown
/// id written off after 5 minutes, not-found believed after 2, and attention
/// asked for after 15.
pub fn retrieval_policy() -> (policy: RetrievalPolicy)
    ensures
        policy == retrieving(),
        policy == (RetrievalPolicy {
            initial_backoff: 5_000_000_000,
            max_backoff: 60_000_000_000,
            write_off_unknown_after: 300_000_000_000,
            trust_not_found_after: 120_000_000_000,
            escalate_after: 900_000_000_000,
            accounting_rev: ACCOUNTING_REV,
        }),
        policy.ok(),
{
    RetrievalPolicy {
        initial_backoff: 5_000_000_000,
        max_backoff: 60_000_000_000,
        write_off_unknown_after: 300_000_000_000,
        trust_not_found_after: 120_000_000_000,
        escalate_after: 900_000_000_000,
        accounting_rev: ACCOUNTING_REV,
    }
}

/// How requests are admitted.
pub fn admission_policy() -> (policy: AdmissionPolicy)
    ensures
        policy@.estimator.framing() == DEFAULT_FRAMING_ALLOWANCE_PER_NODE,
        policy@.accounting_rev == ACCOUNTING_REV,
        policy@.required_safety_inputs == seq![DATA_SHARING@],
{
    let mut inputs: Vec<String> = Vec::new();
    inputs.push(DATA_SHARING.to_owned());
    assert(views(inputs@) =~= seq![DATA_SHARING@]);
    AdmissionPolicy {
        estimator: EstimatorPolicy::default(),
        accounting_rev: ACCOUNTING_REV,
        required_safety_inputs: inputs,
    }
}

/// The smallest grant, from a position on.
pub open spec fn smallest_grant(grants: Seq<(Seq<char>, u64)>) -> u64
    decreases grants.len(),
{
    if grants.len() == 0 {
        0
    } else if grants.len() == 1 {
        grants[0].1
    } else {
        let before = smallest_grant(grants.drop_last());
        if grants.last().1 < before {
            grants.last().1
        } else {
            before
        }
    }
}

/// The liability one verification may cover: a fraction of the smallest
/// grant, so that what can be lost on a stale verification is finite.
pub fn safety_budget(grants: &Vec<(String, u64)>, divisor: u64) -> (budget: u64)
    requires
        divisor > 0,
    ensures
        budget == smallest_grant(grants_view(grants@)) / divisor,
{
    let ghost all = grants_view(grants@);
    let mut smallest: u64 = 0;
    let mut i: usize = 0;
    assert(all.take(0) =~= Seq::empty());
    while i < grants.len()
        invariant
            i <= grants@.len(),
            all == grants_view(grants@),
            smallest == smallest_grant(all.take(i as int)),
        decreases grants.len() - i,
    {
        let granted: u64 = grants[i].1;
        proof {
            assert(all.take(i + 1).drop_last() =~= all.take(i as int));
            assert(all.take(i + 1).last().1 == granted);
        }
        if i == 0 || granted < smallest {
            smallest = granted;
        }
        i = i + 1;
    }
    assert(all.take(all.len() as int) =~= all);
    smallest / divisor
}

/// How often data sharing is re-checked, in seconds: well before the
/// verification expires.
pub open spec fn sharing_interval(ttl: i64) -> i64 {
    let third = if ttl >= 0 {
        ttl as int / 3
    } else {
        0
    };
    if third < 60 {
        60
    } else if third > 3_600 {
        3_600
    } else {
        third as i64
    }
}

pub fn sharing_recheck_seconds(ttl: i64) -> (seconds: u64)
    ensures
        seconds == sharing_interval(ttl),
{
    if ttl < 0 {
        return 60;
    }
    let third: i64 = ttl / 3;
    if third < 60 {
        60
    } else if third > 3_600 {
        3_600
    } else {
        third as u64
    }
}

/// How often the OpenRouter account is re-checked, in seconds.
pub open spec fn account_interval(ttl: i64) -> int {
    if ttl >= 180 {
        ttl as int / 3
    } else {
        60
    }
}

/// How often the OpenRouter account is re-checked, in seconds: a third of its
/// time to live, and no oftener than once a minute.
pub fn account_recheck_seconds(ttl: i64) -> (seconds: u64)
    ensures
        seconds == account_interval(ttl),
        seconds == (if ttl >= 180 {
            ttl as int / 3
        } else {
            60
        }),
{
    if ttl < 180 {
        return 60;
    }
    (ttl / 3) as u64
}

// ---------------------------------------------------------------------------
// Recovery.

/// The pools that pay for configured models, each once, with nothing charged.
pub open spec fn paying_pools(catalog: Seq<(Seq<char>, EntryView)>) -> Seq<(Seq<char>, u64)>
    decreases catalog.len(),
{
    if catalog.len() == 0 {
        Seq::empty()
    } else {
        with_tokens(paying_pools(catalog.drop_last()), catalog.last().1.pool_id, 0)
    }
}

/// The totals with one model's tokens. Tokens reported for a model outside the
/// catalog are charged to every pool: which pool paid for them is unknown, and
/// over-counting is the safe direction.
pub open spec fn charged(
    totals: Seq<(Seq<char>, u64)>,
    catalog: Seq<(Seq<char>, EntryView)>,
    model: Seq<char>,
    tokens: u64,
) -> Seq<(Seq<char>, u64)> {
    match entry_of(catalog, model, 0) {
        Some(entry) => with_tokens(totals, entry.pool_id, tokens),
        None => Seq::new(
            totals.len(),
            |i: int| (totals[i].0, capped_sum(totals[i].1, tokens)),
        ),
    }
}

/// The totals with a day's tokens.
pub open spec fn all_charged(
    totals: Seq<(Seq<char>, u64)>,
    catalog: Seq<(Seq<char>, EntryView)>,
    day: Seq<(Seq<char>, u64)>,
) -> Seq<(Seq<char>, u64)>
    decreases day.len(),
{
    if day.len() == 0 {
        totals
    } else {
        charged(
            all_charged(totals, catalog, day.drop_last()),
            catalog,
            day.last().0,
            day.last().1,
        )
    }
}

/// What a day's usage charges to each pool.
pub open spec fn recovered(
    catalog: Seq<(Seq<char>, EntryView)>,
    day: Seq<(Seq<char>, u64)>,
) -> Seq<(Seq<char>, u64)> {
    all_charged(paying_pools(catalog), catalog, day)
}

/// What is adopted: each pool, the epoch, and what it was charged.
pub open spec fn adoptions_of(totals: Seq<(Seq<char>, u64)>, epoch: i64) -> Seq<
    (Seq<char>, i64, u64),
> {
    Seq::new(totals.len(), |i: int| (totals[i].0, epoch, totals[i].1))
}

/// Adds to a pool's total.
fn charge(totals: &mut Vec<(String, u64)>, pool: &str, tokens: u64)
    ensures
        tokens_view(final(totals)@) == with_tokens(tokens_view(old(totals)@), pool@, tokens),
{
    let ghost before = tokens_view(totals@);
    let mut i: usize = 0;
    while i < totals.len()
        invariant
            i <= totals@.len(),
            before == tokens_view(totals@),
            totals@ == old(totals)@,
            model_index(before, pool@, i as int) == model_index(before, pool@, 0),
        decreases totals.len() - i,
    {
        assert(before[i as int].0 == totals@[i as int].0@);
        if str_eq(totals[i].0.as_str(), pool) {
            let sum = add_capped(totals[i].1, tokens);
            totals.set(i, (pool.to_owned(), sum));
            assert(tokens_view(totals@) =~= with_tokens(before, pool@, tokens));
            return;
        }
        i = i + 1;
    }
    totals.push((pool.to_owned(), tokens));
    assert(tokens_view(totals@) =~= with_tokens(before, pool@, tokens));
}

/// Adds to every pool's total.
fn charge_all(totals: &mut Vec<(String, u64)>, tokens: u64)
    ensures
        tokens_view(final(totals)@) == Seq::new(
            old(totals)@.len(),
            |i: int| (old(totals)@[i].0@, capped_sum(old(totals)@[i].1, tokens)),
        ),
{
    let ghost before = totals@;
    let mut i: usize = 0;
    while i < totals.len()
        invariant
            i <= totals@.len(),
            totals@.len() == before.len(),
            forall|k: int|
                0 <= k < i ==> (#[trigger] totals@[k]).0@ == before[k].0@ && totals@[k].1
                    == capped_sum(before[k].1, tokens),
            forall|k: int| i <= k < before.len() ==> totals@[k] == #[trigger] before[k],
        decreases totals.len() - i,
    {
        let name = totals[i].0.clone();
        let sum = add_capped(totals[i].1, tokens);
        totals.set(i, (name, sum));
        i = i + 1;
    }
    assert(tokens_view(totals@) =~= Seq::new(
        before.len(),
        |i: int| (before[i].0@, capped_sum(before[i].1, tokens)),
    ));
}

/// What is adopted from a day's usage.
pub fn recovered_adoptions(catalog: &Catalog, day: &DayUsage, epoch: i64) -> (adoptions: Vec<
    (String, i64, u64),
>)
    ensures
        adoptions_view(adoptions@) == adoptions_of(recovered(catalog@, day@.tokens), epoch),
{
    let ghost models = catalog@;
    let mut totals: Vec<(String, u64)> = Vec::new();
    assert(tokens_view(totals@) =~= Seq::empty());
    assert(models.take(0) =~= Seq::empty());
    let mut i: usize = 0;
    while i < catalog.models.len()
        invariant
            i <= catalog.models@.len(),
            models == catalog@,
            tokens_view(totals@) == paying_pools(models.take(i as int)),
        decreases catalog.models.len() - i,
    {
        proof {
            assert(models.take(i + 1).drop_last() =~= models.take(i as int));
            assert(models.take(i + 1).last().1 == catalog.models@[i as int].1@);
        }
        charge(&mut totals, catalog.models[i].1.pool_id.as_str(), 0);
        i = i + 1;
    }
    assert(models.take(models.len() as int) =~= models);
    let ghost pools = tokens_view(totals@);
    let ghost reported = day@.tokens;
    assert(reported.take(0) =~= Seq::empty());
    let mut j: usize = 0;
    while j < day.tokens_by_model.len()
        invariant
            j <= day.tokens_by_model@.len(),
            reported == day@.tokens,
            models == catalog@,
            tokens_view(totals@) == all_charged(pools, models, reported.take(j as int)),
        decreases day.tokens_by_model.len() - j,
    {
        let entry = &day.tokens_by_model[j];
        let ghost so_far = tokens_view(totals@);
        proof {
            assert(reported.take(j + 1).drop_last() =~= reported.take(j as int));
            assert(reported.take(j + 1).last() == (entry.0@, entry.1));
        }
        match catalog.get(entry.0.as_str()) {
            Some(found) => {
                charge(&mut totals, found.pool_id.as_str(), entry.1);
            },
            None => {
                charge_all(&mut totals, entry.1);
                assert(tokens_view(totals@) =~= charged(so_far, models, entry.0@, entry.1));
            },
        }
        j = j + 1;
    }
    assert(reported.take(reported.len() as int) =~= reported);
    let mut adoptions: Vec<(String, i64, u64)> = Vec::new();
    let mut k: usize = 0;
    while k < totals.len()
        invariant
            k <= totals@.len(),
            adoptions@.len() == k,
            forall|n: int|
                0 <= n < k ==> (#[trigger] adoptions@[n]).0@ == totals@[n].0@ && adoptions@[n].1
                    == epoch && adoptions@[n].2 == totals@[n].1,
        decreases totals.len() - k,
    {
        adoptions.push((totals[k].0.clone(), epoch, totals[k].1));
        k = k + 1;
    }
    assert(adoptions_view(adoptions@) =~= adoptions_of(tokens_view(totals@), epoch));
    adoptions
}

// ---------------------------------------------------------------------------
// Data sharing.

/// What a data-sharing check does with the safety input.
#[derive(Debug, Clone, Copy, PartialEq, Eq, Structural)]
pub enum Sharing {
    /// Nothing was served outside the grant: the verification is renewed.
    Renew,
    /// Traffic was served outside the grant: admission is closed.
    Withdraw,
    /// It could not be checked: the previous verification is left to expire.
    LeaveToExpire,
}

/// What a day's usage says of data sharing; `None` where it could not be read.
pub open spec fn sharing_of(outside: Option<u64>) -> Sharing {
    match outside {
        Some(requests) => if requests == 0 {
            Sharing::Renew
        } else {
            Sharing::Withdraw
        },
        None => Sharing::LeaveToExpire,
    }
}

/// What a day's usage says of data sharing; `None` where it could not be read.
pub fn check_sharing(day: Option<&DayUsage>) -> (sharing: Sharing)
    ensures
        sharing == sharing_of(
            match day {
                Some(usage) => Some(usage@.outside),
                None => None,
            },
        ),
{
    match day {
        Some(usage) => {
            if usage.requests_outside_the_grant == 0 {
                Sharing::Renew
            } else {
                Sharing::Withdraw
            }
        },
        None => Sharing::LeaveToExpire,
    }
}

// ---------------------------------------------------------------------------
// The clock loop.

/// The epoch to roll over to, where one is due.
pub fn rollover_due(window: Window) -> (epoch: Option<i64>)
    ensures
        epoch == match window {
            Window::RolloverDue { epoch } => Some(epoch),
            _ => None,
        },
{
    match window {
        Window::RolloverDue { epoch } => Some(epoch),
        _ => None,
    }
}

// ---------------------------------------------------------------------------
// The OpenRouter account.

/// How long the OpenRouter route stays open: until the last safe check
/// expires.
#[derive(Debug, Clone, Copy, PartialEq, Eq, Structural)]
pub struct AccountWatch {
    pub open_until: Option<i64>,
}

/// When a check that held expires.
pub open spec fn check_expires(now: i64, ttl: i64) -> i64 {
    if now + ttl > i64::MAX {
        i64::MAX
    } else if now + ttl < i64::MIN {
        i64::MIN
    } else {
        (now + ttl) as i64
    }
}

impl AccountWatch {
    /// A route that has not been checked is closed.
    pub fn new() -> (watch: AccountWatch)
        ensures
            watch.open_until is None,
    {
        AccountWatch { open_until: None }
    }

    /// Takes a check of the account, or that there was none. A route that
    /// could not be checked is closed.
    pub fn record(&mut self, check: Option<&AccountCheck>, now: i64, ttl: i64)
        ensures
            final(self).open_until == match check {
                Some(account) => if account_is_safe(account@) {
                    Some(check_expires(now, ttl))
                } else {
                    None
                },
                None => None,
            },
    {
        self.open_until = match check {
            Some(account) => {
                if account.safe() {
                    let until: i128 = now as i128 + ttl as i128;
                    if until > i64::MAX as i128 {
                        Some(i64::MAX)
                    } else if until < i64::MIN as i128 {
                        Some(i64::MIN)
                    } else {
                        Some(until as i64)
                    }
                } else {
                    None
                }
            },
            None => None,
        };
    }

    /// Whether the route is open.
    pub fn is_open(&self, now: i64) -> (open: bool)
        ensures
            open == (self.open_until matches Some(until) && now < until),
    {
        match self.open_until {
            Some(until) => now < until,
            None => false,
        }
    }
}

// ---------------------------------------------------------------------------
// Startup.

/// What startup works from.
#[derive(Debug)]
pub struct StartPlan {
    pub grants: Vec<(String, u64)>,
    pub catalog: Catalog,
    pub data_sharing_ttl: i64,
    pub safety_budget_divisor: u64,
}

/// What startup is waiting for.
#[derive(Debug, Clone, Copy, PartialEq, Eq, Structural)]
pub enum Startup {
    /// The ledger to be opened.
    Opening,
    /// The provider's clock to be read.
    Reading { trusted: bool },
    /// The ledger to be rolled over.
    Rolling { trusted: bool, now: i64 },
    /// The day's usage, to recover from.
    Recovering { now: i64 },
    /// The recovered consumption to be adopted.
    Adopting { now: i64 },
    /// The day's usage, to check data sharing by.
    Checking { now: i64 },
    /// The safety input to be recorded.
    Recording { verified: bool },
    Running,
    Failed,
}

/// What became of an action.
#[derive(Debug)]
pub enum StartEvent {
    Opened(Result<TrustVerdict, String>),
    /// The trusted time that was read.
    Clock(Result<i64, String>),
    Ledger(Result<(), String>),
    Day(Result<DayUsage, String>),
}

pub enum StartEventView {
    Opened(Result<TrustVerdict, Seq<char>>),
    Clock(Result<i64, Seq<char>>),
    Ledger(Result<(), Seq<char>>),
    Day(Result<DayView, Seq<char>>),
}

pub open spec fn start_event_view(event: StartEvent) -> StartEventView {
    match event {
        StartEvent::Opened(Ok(verdict)) => StartEventView::Opened(Ok(verdict)),
        StartEvent::Opened(Err(detail)) => StartEventView::Opened(Err(detail@)),
        StartEvent::Clock(Ok(now)) => StartEventView::Clock(Ok(now)),
        StartEvent::Clock(Err(detail)) => StartEventView::Clock(Err(detail@)),
        StartEvent::Ledger(Ok(done)) => StartEventView::Ledger(Ok(done)),
        StartEvent::Ledger(Err(detail)) => StartEventView::Ledger(Err(detail@)),
        StartEvent::Day(Ok(usage)) => StartEventView::Day(Ok(usage@)),
        StartEvent::Day(Err(detail)) => StartEventView::Day(Err(detail@)),
    }
}

/// What is to be done next.
#[derive(Debug)]
pub enum StartAction {
    ReadClock,
    RollOver { epoch: i64 },
    /// Read the day's usage reporting.
    ReadDay { epoch: i64 },
    Adopt(Vec<(String, i64, u64)>),
    /// Renew the data-sharing verification.
    Renew { now: i64, ttl: i64, budget: u64 },
    /// Withdraw it.
    Withdraw,
    /// Serve. Unless data sharing is verified, admission refuses until it is.
    Run { verified: bool },
    Fail(StartupError),
}

pub enum StartActionView {
    ReadClock,
    RollOver { epoch: i64 },
    ReadDay { epoch: i64 },
    Adopt(Seq<(Seq<char>, i64, u64)>),
    Renew { now: i64, ttl: i64, budget: u64 },
    Withdraw,
    Run { verified: bool },
    Fail(StartupErrorView),
}

impl View for StartAction {
    type V = StartActionView;

    open spec fn view(&self) -> StartActionView {
        match *self {
            StartAction::ReadClock => StartActionView::ReadClock,
            StartAction::RollOver { epoch } => StartActionView::RollOver { epoch },
            StartAction::ReadDay { epoch } => StartActionView::ReadDay { epoch },
            StartAction::Adopt(adoptions) => StartActionView::Adopt(adoptions_view(adoptions@)),
            StartAction::Renew { now, ttl, budget } => StartActionView::Renew { now, ttl, budget },
            StartAction::Withdraw => StartActionView::Withdraw,
            StartAction::Run { verified } => StartActionView::Run { verified },
            StartAction::Fail(error) => StartActionView::Fail(error@),
        }
    }
}

/// The epoch of a time.
pub open spec fn epoch_at(now: i64) -> i64 {
    (now as int / SECONDS_PER_DAY as int) as i64
}

pub open spec fn failing(error: StartupErrorView) -> (Startup, StartActionView) {
    (Startup::Failed, StartActionView::Fail(error))
}

/// The next state and action; `None` where the event does not answer what
/// startup is waiting for.
pub open spec fn start_step(state: Startup, plan: StartPlan, event: StartEventView) -> Option<
    (Startup, StartActionView),
> {
    match (state, event) {
        (Startup::Opening, StartEventView::Opened(result)) => Some(
            match result {
                Ok(verdict) => (
                    Startup::Reading { trusted: verdict == TrustVerdict::Trusted },
                    StartActionView::ReadClock,
                ),
                Err(detail) => failing(StartupErrorView::Ledger(detail)),
            },
        ),
        (Startup::Reading { trusted }, StartEventView::Clock(result)) => Some(
            match result {
                Ok(now) => (
                    Startup::Rolling { trusted, now },
                    StartActionView::RollOver { epoch: epoch_at(now) },
                ),
                Err(detail) => failing(StartupErrorView::NoTrustedTime(detail)),
            },
        ),
        (Startup::Rolling { trusted, now }, StartEventView::Ledger(result)) => Some(
            match result {
                Ok(_) => (
                    if trusted {
                        Startup::Checking { now }
                    } else {
                        Startup::Recovering { now }
                    },
                    StartActionView::ReadDay { epoch: epoch_at(now) },
                ),
                Err(detail) => failing(StartupErrorView::LedgerAccess(detail)),
            },
        ),
        (Startup::Recovering { now }, StartEventView::Day(result)) => Some(
            match result {
                Ok(day) => (
                    Startup::Adopting { now },
                    StartActionView::Adopt(
                        adoptions_of(recovered(plan.catalog@, day.tokens), epoch_at(now)),
                    ),
                ),
                Err(detail) => failing(StartupErrorView::Recovery(detail)),
            },
        ),
        (Startup::Adopting { now }, StartEventView::Ledger(result)) => Some(
            match result {
                Ok(_) => (
                    Startup::Checking { now },
                    StartActionView::ReadDay { epoch: epoch_at(now) },
                ),
                Err(detail) => failing(StartupErrorView::LedgerAccess(detail)),
            },
        ),
        (Startup::Checking { now }, StartEventView::Day(result)) => Some(
            match sharing_of(
                match result {
                    Ok(day) => Some(day.outside),
                    Err(_) => None,
                },
            ) {
                Sharing::Renew => (
                    Startup::Recording { verified: true },
                    StartActionView::Renew {
                        now,
                        ttl: plan.data_sharing_ttl,
                        budget: smallest_grant(grants_view(plan.grants@))
                            / plan.safety_budget_divisor,
                    },
                ),
                Sharing::Withdraw => (
                    Startup::Recording { verified: false },
                    StartActionView::Withdraw,
                ),
                Sharing::LeaveToExpire => (
                    Startup::Running,
                    StartActionView::Run { verified: false },
                ),
            },
        ),
        (Startup::Recording { verified }, StartEventView::Ledger(result)) => Some(
            match result {
                Ok(_) => (Startup::Running, StartActionView::Run { verified }),
                Err(detail) => failing(StartupErrorView::LedgerAccess(detail)),
            },
        ),
        _ => None,
    }
}

pub open spec fn start_view(step: Option<(Startup, StartAction)>) -> Option<
    (Startup, StartActionView),
> {
    match step {
        Some((state, action)) => Some((state, action@)),
        None => None,
    }
}

impl Startup {
    /// The next state and action; `None` where the event does not answer what
    /// startup is waiting for.
    pub fn step(self, plan: &StartPlan, event: StartEvent) -> (next: Option<(Startup, StartAction)>)
        requires
            plan.safety_budget_divisor > 0,
        ensures
            start_view(next) == start_step(self, *plan, start_event_view(event)),
    {
        match (self, event) {
            (Startup::Opening, StartEvent::Opened(result)) => match result {
                Ok(verdict) => {
                    let trusted = matches!(verdict, TrustVerdict::Trusted);
                    Some((Startup::Reading { trusted }, StartAction::ReadClock))
                },
                Err(detail) => Some(
                    (Startup::Failed, StartAction::Fail(StartupError::Ledger(detail))),
                ),
            },
            // Trusted time before anything is rolled over or admitted.
            (Startup::Reading { trusted }, StartEvent::Clock(result)) => match result {
                Ok(now) => Some(
                    (
                        Startup::Rolling { trusted, now },
                        StartAction::RollOver { epoch: epoch_of(now) },
                    ),
                ),
                Err(detail) => Some(
                    (Startup::Failed, StartAction::Fail(StartupError::NoTrustedTime(detail))),
                ),
            },
            (Startup::Rolling { trusted, now }, StartEvent::Ledger(result)) => match result {
                Ok(_) => {
                    let next = if trusted {
                        Startup::Checking { now }
                    } else {
                        Startup::Recovering { now }
                    };
                    Some((next, StartAction::ReadDay { epoch: epoch_of(now) }))
                },
                Err(detail) => Some(
                    (Startup::Failed, StartAction::Fail(StartupError::LedgerAccess(detail))),
                ),
            },
            (Startup::Recovering { now }, StartEvent::Day(result)) => match result {
                Ok(day) => {
                    let adoptions = recovered_adoptions(&plan.catalog, &day, epoch_of(now));
                    Some((Startup::Adopting { now }, StartAction::Adopt(adoptions)))
                },
                Err(detail) => Some(
                    (Startup::Failed, StartAction::Fail(StartupError::Recovery(detail))),
                ),
            },
            (Startup::Adopting { now }, StartEvent::Ledger(result)) => match result {
                Ok(_) => Some(
                    (
                        Startup::Checking { now },
                        StartAction::ReadDay { epoch: epoch_of(now) },
                    ),
                ),
                Err(detail) => Some(
                    (Startup::Failed, StartAction::Fail(StartupError::LedgerAccess(detail))),
                ),
            },
            (Startup::Checking { now }, StartEvent::Day(result)) => {
                let sharing = match &result {
                    Ok(day) => check_sharing(Some(day)),
                    Err(_) => check_sharing(None),
                };
                match sharing {
                    Sharing::Renew => {
                        let budget = safety_budget(&plan.grants, plan.safety_budget_divisor);
                        Some(
                            (
                                Startup::Recording { verified: true },
                                StartAction::Renew { now, ttl: plan.data_sharing_ttl, budget },
                            ),
                        )
                    },
                    Sharing::Withdraw => Some(
                        (Startup::Recording { verified: false }, StartAction::Withdraw),
                    ),
                    Sharing::LeaveToExpire => Some(
                        (Startup::Running, StartAction::Run { verified: false }),
                    ),
                }
            },
            (Startup::Recording { verified }, StartEvent::Ledger(result)) => match result {
                Ok(_) => Some((Startup::Running, StartAction::Run { verified })),
                Err(detail) => Some(
                    (Startup::Failed, StartAction::Fail(StartupError::LedgerAccess(detail))),
                ),
            },
            _ => None,
        }
    }
}

// ---------------------------------------------------------------------------
// Laws.

/// Law: nothing is rolled over before trusted time was read, and the ledger is
/// rolled over to the epoch that time names.
pub proof fn trusted_time_comes_first(state: Startup, plan: StartPlan, event: StartEventView)
    ensures
        start_step(state, plan, event) matches Some((_, StartActionView::RollOver { epoch }))
            ==> state is Reading && (event matches StartEventView::Clock(Ok(now)) && epoch
            == epoch_at(now)),
{
}

/// Law: an untrusted ledger is recovered before it is served from, and a
/// trusted one never takes usage reporting for its own record.
pub proof fn only_an_untrusted_ledger_is_recovered(
    state: Startup,
    plan: StartPlan,
    event: StartEventView,
)
    ensures
        start_step(state, plan, event) matches Some((next, action)) ==> {
            &&& action is Adopt ==> state is Recovering
            &&& next is Recovering ==> (state matches Startup::Rolling { trusted, .. } && !trusted)
            &&& next is Checking ==> state is Adopting || (state matches Startup::Rolling {
                trusted,
                ..
            } && trusted)
        },
{
}

/// Law: startup says that data sharing is verified only where nothing was
/// served outside the grant and the verification was recorded.
pub proof fn data_sharing_is_verified_only_on_evidence(
    state: Startup,
    plan: StartPlan,
    event: StartEventView,
)
    ensures
        start_step(state, plan, event) matches Some((next, action)) ==> {
            &&& action == (StartActionView::Run { verified: true }) ==> state
                == (Startup::Recording { verified: true })
            &&& next == (Startup::Recording { verified: true }) ==> (event matches
                StartEventView::Day(Ok(day)) && day.outside == 0)
        },
{
}

/// Law: tokens of a model that is not configured are charged to every pool,
/// and those of a configured model at least to its own.
pub proof fn recovery_never_undercounts(
    totals: Seq<(Seq<char>, u64)>,
    catalog: Seq<(Seq<char>, EntryView)>,
    model: Seq<char>,
    tokens: u64,
)
    ensures
        entry_of(catalog, model, 0) is None ==> forall|i: int|
            0 <= i < totals.len() ==> (#[trigger] charged(totals, catalog, model, tokens)[i]).1
                == capped_sum(totals[i].1, tokens),
        entry_of(catalog, model, 0) matches Some(entry) ==> {
            let at = model_index(totals, entry.pool_id, 0);
            let after = charged(totals, catalog, model, tokens);
            &&& at < totals.len() ==> after[at] == (
                entry.pool_id,
                capped_sum(totals[at].1, tokens),
            )
            &&& at >= totals.len() ==> after.last() == (entry.pool_id, tokens)
        },
{
    if let Some(entry) = entry_of(catalog, model, 0) {
        lemma_index_in_range(totals, entry.pool_id, 0);
    }
}

proof fn lemma_index_in_range(totals: Seq<(Seq<char>, u64)>, pool: Seq<char>, from: int)
    requires
        0 <= from <= totals.len(),
    ensures
        from <= model_index(totals, pool, from) <= totals.len(),
    decreases totals.len() - from,
{
    if from < totals.len() && totals[from].0 != pool {
        lemma_index_in_range(totals, pool, from + 1);
    }
}

/// Law: the smallest grant is one of the grants, and none is smaller.
pub proof fn the_smallest_grant_is_the_smallest(grants: Seq<(Seq<char>, u64)>)
    ensures
        forall|i: int| 0 <= i < grants.len() ==> smallest_grant(grants) <= (#[trigger] grants[i]).1,
        grants.len() > 0 ==> exists|i: int|
            0 <= i < grants.len() && (#[trigger] grants[i]).1 == smallest_grant(grants),
        grants.len() == 0 ==> smallest_grant(grants) == 0,
    decreases grants.len(),
{
    if grants.len() == 1 {
        assert(grants[0].1 == smallest_grant(grants));
    } else if grants.len() > 1 {
        let front = grants.drop_last();
        the_smallest_grant_is_the_smallest(front);
        let at = choose|i: int|
            0 <= i < front.len() && (#[trigger] front[i]).1 == smallest_grant(front);
        assert(grants[at] == front[at]);
        assert(grants[grants.len() - 1] == grants.last());
        assert forall|i: int| 0 <= i < grants.len() implies smallest_grant(grants) <= (
        #[trigger] grants[i]).1 by {
            if i < front.len() {
                assert(front[i] == grants[i]);
            }
        }
    }
}

/// Law: data sharing is checked again after a third of its time to live, but no
/// sooner than a minute and no later than an hour.
pub proof fn sharing_is_checked_three_times_as_often_as_it_expires(ttl: i64)
    ensures
        60 <= sharing_interval(ttl) <= 3_600,
        180 <= ttl < 10_803 ==> 3 * sharing_interval(ttl) <= ttl < 3 * sharing_interval(ttl) + 3,
        ttl < 180 ==> sharing_interval(ttl) == 60,
        ttl >= 10_800 ==> sharing_interval(ttl) == 3_600,
{
}

/// Law: data sharing is renewed on a day with nothing outside the grant,
/// withdrawn on a day with anything outside it, and left alone where the day
/// could not be read.
pub proof fn sharing_follows_the_day(outside: Option<u64>)
    ensures
        sharing_of(outside) is Renew <==> outside == Some(0u64),
        sharing_of(outside) is Withdraw <==> outside is Some && outside->0 > 0,
        sharing_of(outside) is LeaveToExpire <==> outside is None,
{
}

/// Law: a check that held is good for its time to live.
pub proof fn a_check_is_good_for_its_time(now: i64, ttl: i64)
    requires
        i64::MIN <= now + ttl <= i64::MAX,
    ensures
        check_expires(now, ttl) == now + ttl,
{
}

/// Law: startup goes in order. The ledger is opened, the clock read, the ledger
/// rolled over to the day of the time that was read, the day's usage read and,
/// where the ledger was not trusted, adopted first, and data sharing recorded
/// as that usage shows it. Usage that cannot be read then leaves the proxy
/// running unverified.
pub proof fn startup_goes_in_order(plan: StartPlan, trusted: bool, now: i64, day: DayView)
    ensures
        start_step(
            Startup::Opening,
            plan,
            StartEventView::Opened(Ok(TrustVerdict::Trusted)),
        ) == Some((Startup::Reading { trusted: true }, StartActionView::ReadClock)),
        start_step(Startup::Reading { trusted }, plan, StartEventView::Clock(Ok(now))) matches Some(
            (next, StartActionView::RollOver { epoch }),
        ) && next == (Startup::Rolling { trusted, now }) && epoch * 86_400 <= now < (epoch + 1)
            * 86_400,
        start_step(Startup::Rolling { trusted, now }, plan, StartEventView::Ledger(Ok(()))) matches Some(
            (next, StartActionView::ReadDay { epoch }),
        ) && next == (if trusted {
            Startup::Checking { now }
        } else {
            Startup::Recovering { now }
        }) && epoch * 86_400 <= now < (epoch + 1) * 86_400,
        start_step(Startup::Recovering { now }, plan, StartEventView::Day(Ok(day))) matches Some(
            (next, StartActionView::Adopt(adopted)),
        ) && next == (Startup::Adopting { now }) && adopted.len() == recovered(
            plan.catalog@,
            day.tokens,
        ).len() && forall|i: int|
            0 <= i < adopted.len() ==> {
                let (pool, epoch, tokens) = #[trigger] adopted[i];
                &&& (pool, tokens) == recovered(plan.catalog@, day.tokens)[i]
                &&& epoch * 86_400 <= now < (epoch + 1) * 86_400
            },
        start_step(Startup::Adopting { now }, plan, StartEventView::Ledger(Ok(()))) matches Some(
            (next, StartActionView::ReadDay { epoch }),
        ) && next == (Startup::Checking { now }) && epoch * 86_400 <= now < (epoch + 1) * 86_400,
        start_step(Startup::Checking { now }, plan, StartEventView::Day(Ok(day))) == Some(
            if day.outside == 0 {
                (
                    Startup::Recording { verified: true },
                    StartActionView::Renew {
                        now,
                        ttl: plan.data_sharing_ttl,
                        budget: smallest_grant(grants_view(plan.grants@))
                            / plan.safety_budget_divisor,
                    },
                )
            } else {
                (Startup::Recording { verified: false }, StartActionView::Withdraw)
            },
        ),
{
    lemma_epoch_at(now);
}

/// Law: what goes wrong at startup stops it and says where, but for usage that
/// cannot be read to check data sharing by.
pub proof fn startup_stops_where_it_goes_wrong(
    state: Startup,
    plan: StartPlan,
    detail: Seq<char>,
)
    ensures
        match state {
            Startup::Opening => start_step(state, plan, StartEventView::Opened(Err(detail)))
                == Some((Startup::Failed, StartActionView::Fail(StartupErrorView::Ledger(detail)))),
            Startup::Reading { .. } => start_step(state, plan, StartEventView::Clock(Err(detail)))
                == Some(
                (Startup::Failed, StartActionView::Fail(StartupErrorView::NoTrustedTime(detail))),
            ),
            Startup::Rolling { .. } | Startup::Adopting { .. } | Startup::Recording { .. } =>
                start_step(state, plan, StartEventView::Ledger(Err(detail))) == Some(
                (Startup::Failed, StartActionView::Fail(StartupErrorView::LedgerAccess(detail))),
            ),
            Startup::Recovering { .. } => start_step(state, plan, StartEventView::Day(Err(detail)))
                == Some(
                (Startup::Failed, StartActionView::Fail(StartupErrorView::Recovery(detail))),
            ),
            Startup::Checking { .. } => start_step(state, plan, StartEventView::Day(Err(detail)))
                == Some((Startup::Running, StartActionView::Run { verified: false })),
            Startup::Running | Startup::Failed => true,
        },
        forall|reason: crate::trust::UnknownReason|
            #[trigger] start_step(
                Startup::Opening,
                plan,
                StartEventView::Opened(Ok(TrustVerdict::Unknown(reason))),
            ) == Some((Startup::Reading { trusted: false }, StartActionView::ReadClock)),
        forall|verified: bool|
            #[trigger] start_step(
                Startup::Recording { verified },
                plan,
                StartEventView::Ledger(Ok(())),
            ) == Some((Startup::Running, StartActionView::Run { verified })),
{
}

proof fn lemma_epoch_at(now: i64)
    ensures
        epoch_at(now) * 86_400 <= now < (epoch_at(now) + 1) * 86_400,
{
    assert(i64::MIN <= now as int / 86_400 <= i64::MAX);
}

/// What a pool is charged among totals.
pub open spec fn total_of(totals: Seq<(Seq<char>, u64)>, pool: Seq<char>) -> int {
    let at = model_index(totals, pool, 0);
    if at < totals.len() {
        totals[at].1 as int
    } else {
        0
    }
}

/// Law: recovery charges the tokens of a configured model to the pool that pays
/// for it and to no other, and those of any other model to every pool.
pub proof fn tokens_are_charged_to_the_pool_that_paid(
    totals: Seq<(Seq<char>, u64)>,
    catalog: Seq<(Seq<char>, EntryView)>,
    model: Seq<char>,
    tokens: u64,
    pool: Seq<char>,
)
    requires
        total_of(totals, pool) + tokens <= u64::MAX,
        model_index(totals, pool, 0) < totals.len(),
    ensures
        ({
            let after = charged(totals, catalog, model, tokens);
            match entry_of(catalog, model, 0) {
                Some(entry) if entry.pool_id != pool => total_of(after, pool) == total_of(
                    totals,
                    pool,
                ),
                _ => total_of(after, pool) == total_of(totals, pool) + tokens,
            }
        }),
        ({
            let after = charged(totals, catalog, model, tokens);
            model_index(after, pool, 0) < after.len()
        }),
{
    match entry_of(catalog, model, 0) {
        Some(entry) => lemma_other_tokens(totals, entry.pool_id, tokens, pool),
        None => {
            let after = charged(totals, catalog, model, tokens);
            lemma_index_in_range(totals, pool, 0);
            lemma_same_names(totals, after, pool, 0);
        },
    }
}

proof fn lemma_same_names(
    a: Seq<(Seq<char>, u64)>,
    b: Seq<(Seq<char>, u64)>,
    name: Seq<char>,
    from: int,
)
    requires
        a.len() == b.len(),
        forall|i: int| 0 <= i < a.len() ==> (#[trigger] a[i]).0 == b[i].0,
        0 <= from <= a.len(),
    ensures
        model_index(a, name, from) == model_index(b, name, from),
    decreases a.len() - from,
{
    if from < a.len() {
        assert(a[from].0 == b[from].0);
        if a[from].0 != name {
            lemma_same_names(a, b, name, from + 1);
        }
    }
}

/// Law: recovery accounts for every pool that pays for a configured model, each
/// from nothing.
pub proof fn every_paying_pool_is_recovered(catalog: Seq<(Seq<char>, EntryView)>, i: int)
    requires
        0 <= i < catalog.len(),
    ensures
        ({
            let pools = paying_pools(catalog);
            &&& model_index(pools, catalog[i].1.pool_id, 0) < pools.len()
            &&& total_of(pools, catalog[i].1.pool_id) == 0
        }),
    decreases catalog.len(),
{
    let front = catalog.drop_last();
    let pools = paying_pools(front);
    let pool = catalog[i].1.pool_id;
    lemma_nothing_charged(front, pool);
    lemma_other_tokens(pools, catalog.last().1.pool_id, 0, pool);
    if i < front.len() {
        assert(front[i] == catalog[i]);
        every_paying_pool_is_recovered(front, i);
    }
}

proof fn lemma_nothing_charged(catalog: Seq<(Seq<char>, EntryView)>, pool: Seq<char>)
    ensures
        total_of(paying_pools(catalog), pool) == 0,
    decreases catalog.len(),
{
    if catalog.len() > 0 {
        lemma_nothing_charged(catalog.drop_last(), pool);
        lemma_other_tokens(
            paying_pools(catalog.drop_last()),
            catalog.last().1.pool_id,
            0,
            pool,
        );
    }
}

/// Law: what a day charges is charged model by model.
pub proof fn a_day_is_charged_model_by_model(
    totals: Seq<(Seq<char>, u64)>,
    catalog: Seq<(Seq<char>, EntryView)>,
    day: Seq<(Seq<char>, u64)>,
    model: Seq<char>,
    tokens: u64,
)
    ensures
        all_charged(totals, catalog, day.push((model, tokens))) == charged(
            all_charged(totals, catalog, day),
            catalog,
            model,
            tokens,
        ),
        all_charged(totals, catalog, Seq::empty()) == totals,
        recovered(catalog, day) == all_charged(paying_pools(catalog), catalog, day),
{
    assert(day.push((model, tokens)).drop_last() =~= day);
}

/// Law: a dispatch whose id was never learned is written off once it is five
/// minutes old, and until then it is waited for.
pub proof fn an_unknown_id_is_given_five_minutes(
    backoffs: Seq<Backoff>,
    dispatch: OpenDispatchView,
    now_unix: i64,
    now: u64,
)
    requires
        dispatch.state == State::DispatchedIdUnknown,
    ensures
        plan_for(retrieving(), backoffs, dispatch, now_unix, now) == if now_unix
            - dispatch.created_at >= 300 {
            PlanView::WriteOff(WriteOffReason::NoResponseId)
        } else {
            PlanView::Wait
        },
{
}

/// Law: that the provider does not know a response is believed of a dispatch
/// that is two minutes old, and of no younger one.
pub proof fn not_found_is_believed_after_two_minutes(
    created_at: i64,
    now_unix: i64,
    response_id: Seq<char>,
)
    ensures
        answer_leads_to(retrieving(), created_at, now_unix, response_id, AnswerView::Status(404))
            is WriteOff <==> now_unix - created_at >= 120,
{
}

/// Law: attention is asked for a dispatch once it has been open for a quarter of
/// an hour.
pub proof fn attention_is_asked_after_a_quarter_of_an_hour(created_at: i64, now_unix: i64)
    ensures
        older_than(created_at, now_unix, retrieving().escalate_after) <==> now_unix - created_at
            >= 900,
{
}

/// Law: a retrieval is tried again after five seconds, and then after twice as
/// long each time, up to a minute.
pub proof fn retries_go_from_five_seconds_to_a_minute(previous: Backoff)
    requires
        5_000_000_000 <= previous.delay <= 60_000_000_000,
    ensures
        next_delay(retrieving(), None) == 5_000_000_000,
        ({
            let next = next_delay(retrieving(), Some(previous));
            &&& previous.delay <= next <= 60_000_000_000
            &&& next == 2 * previous.delay || (2 * previous.delay > 60_000_000_000 && next
                == 60_000_000_000)
        }),
{
}

/// Law: a breaker that supervises dispatches opens at the third failure in a
/// row and not before, for half a minute.
pub proof fn three_failures_open_for_half_a_minute(first: u64, second: u64, third: u64)
    requires
        first + 600_000_000_000 <= u64::MAX,
        second + 600_000_000_000 <= u64::MAX,
        third + 600_000_000_000 <= u64::MAX,
    ensures
        ({
            let one = after_failure(new_breaker(supervising().breaker), first);
            let two = after_failure(one, second);
            let three = after_failure(two, third);
            &&& one.open_until is None
            &&& two.open_until is None
            &&& three.open_until == Some((third + 30_000_000_000) as u64)
            &&& three.next_cooldown == 60_000_000_000
        }),
{
}

/// Law: what is adopted for each pool is what it was charged, for the day.
pub proof fn what_was_charged_is_adopted(totals: Seq<(Seq<char>, u64)>, epoch: i64, i: int)
    requires
        0 <= i < totals.len(),
    ensures
        ({
            let adopted = adoptions_of(totals, epoch);
            &&& adopted.len() == totals.len()
            &&& adopted[i].0 == totals[i].0
            &&& adopted[i].1 == epoch
            &&& adopted[i].2 == totals[i].1
        }),
{
}

/// Law: an account is checked three times as often as its check expires, though
/// no oftener than once a minute.
pub proof fn an_account_is_checked_three_times_as_often_as_it_expires(ttl: i64)
    ensures
        account_interval(ttl) >= 60,
        ttl >= 180 ==> 3 * account_interval(ttl) <= ttl < 3 * account_interval(ttl) + 3,
        ttl < 180 ==> account_interval(ttl) == 60,
{
}

} // verus!
