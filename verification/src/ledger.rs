//! Deciding admission, and the helpers the transition and rollover modules
//! share.
use vstd::prelude::*;
use vstd::string::*;

use crate::error::{ErrorView, LedgerError};
use crate::state::State;
use crate::tables::{
    count_in_flight, find_pool, has_pool, held, held_term, in_flight, inputs_ok, lemma_overrun_is_not_negative,
    lemma_pool_index, lemma_rooted_extends, lemma_total_push, overrun, overrun_term, pool_index,
    pools_ok, row_ok, rows_ok, same_grants, same_pool, sound, spent, spent_term, tables_ok, tallied,
    views, within_grants, LatchRow, LatchView, PoolView, ReservationRow, RowView, SafetyRow,
    SafetyView, Tables, TablesView,
};
use crate::text::{str_eq, text_before, text_lt};
use crate::trust::TrustVerdict;

verus! {

#[derive(Debug, Clone, Copy, PartialEq, Eq, Hash, PartialOrd, Ord, Structural)]
pub struct ReservationId(pub i64);

#[derive(Debug)]
pub struct ReservationRequest {
    pub pool_id: String,
    /// The maximum the request can consume. Never a lighter estimate.
    pub liability: u64,
    pub request_digest: String,
    pub model_snapshot: String,
    pub service_tier: String,
    pub accounting_rev: i64,
    pub required_safety_inputs: Vec<String>,
}

pub struct RequestView {
    pub pool_id: Seq<char>,
    pub liability: u64,
    pub request_digest: Seq<char>,
    pub model_snapshot: Seq<char>,
    pub service_tier: Seq<char>,
    pub accounting_rev: i64,
    pub required_safety_inputs: Seq<Seq<char>>,
}

impl View for ReservationRequest {
    type V = RequestView;

    open spec fn view(&self) -> RequestView {
        RequestView {
            pool_id: self.pool_id@,
            liability: self.liability,
            request_digest: self.request_digest@,
            model_snapshot: self.model_snapshot@,
            service_tier: self.service_tier@,
            accounting_rev: self.accounting_rev,
            required_safety_inputs: views(self.required_safety_inputs@),
        }
    }
}

/// How many dispatches may be open at once: what the retrieval worker can keep
/// up with. The grant is guarded by the liabilities, not by this.
pub const MAX_IN_FLIGHT: usize = 32;

#[derive(Debug, PartialEq, Eq)]
pub enum Refusal {
    Untrusted(TrustVerdict),
    Latched { scope: String, reason: String },
    SafetyInputMissing(String),
    SafetyInputExpired(String),
    SafetyBudgetExhausted { key: String, remaining: i64 },
    PoolNotOpen { pool_id: String, epoch: i64 },
    InsufficientQuota { remaining: i64, liability: i64 },
    /// As many dispatches are open as there may be.
    TooManyInFlight { open: usize },
}

pub enum RefusalView {
    Untrusted(TrustVerdict),
    Latched { scope: Seq<char>, reason: Seq<char> },
    SafetyInputMissing(Seq<char>),
    SafetyInputExpired(Seq<char>),
    SafetyBudgetExhausted { key: Seq<char>, remaining: i64 },
    PoolNotOpen { pool_id: Seq<char>, epoch: i64 },
    InsufficientQuota { remaining: i64, liability: i64 },
    TooManyInFlight { open: usize },
}

impl View for Refusal {
    type V = RefusalView;

    open spec fn view(&self) -> RefusalView {
        match *self {
            Refusal::Untrusted(verdict) => RefusalView::Untrusted(verdict),
            Refusal::Latched { scope, reason } => RefusalView::Latched {
                scope: scope@,
                reason: reason@,
            },
            Refusal::SafetyInputMissing(key) => RefusalView::SafetyInputMissing(key@),
            Refusal::SafetyInputExpired(key) => RefusalView::SafetyInputExpired(key@),
            Refusal::SafetyBudgetExhausted { key, remaining } => {
                RefusalView::SafetyBudgetExhausted { key: key@, remaining }
            },
            Refusal::PoolNotOpen { pool_id, epoch } => RefusalView::PoolNotOpen {
                pool_id: pool_id@,
                epoch,
            },
            Refusal::InsufficientQuota { remaining, liability } => RefusalView::InsufficientQuota {
                remaining,
                liability,
            },
            Refusal::TooManyInFlight { open } => RefusalView::TooManyInFlight { open },
        }
    }
}

#[derive(Debug, PartialEq, Eq)]
pub enum Admission {
    Reserved(ReservationId),
    Refused(Refusal),
}

pub enum AdmissionView {
    Reserved(ReservationId),
    Refused(RefusalView),
}

impl View for Admission {
    type V = AdmissionView;

    open spec fn view(&self) -> AdmissionView {
        match *self {
            Admission::Reserved(id) => AdmissionView::Reserved(id),
            Admission::Refused(refusal) => AdmissionView::Refused(refusal@),
        }
    }
}

/// The outcome of an admission with its texts as characters.
pub open spec fn admission_view(result: Result<Admission, LedgerError>) -> Result<
    AdmissionView,
    ErrorView,
> {
    match result {
        Ok(admission) => Ok(admission@),
        Err(error) => Err(error@),
    }
}

#[derive(Debug)]
pub struct Ledger {
    pub tables: Tables,
    pub trust: TrustVerdict,
}

impl Ledger {
    /// The tables have the shape the schema keeps them in.
    pub open spec fn ok(&self) -> bool {
        tables_ok(self.tables@)
    }
}

// ---------------------------------------------------------------------------
// Latches.

/// A latch that refuses this pool and model.
pub open spec fn latch_applies(
    latch: LatchView,
    pool_id: Seq<char>,
    model_snapshot: Seq<char>,
) -> bool {
    latch.cleared is None && (latch.scope == "global"@ || latch.scope == pool_id || latch.scope
        == "model:"@ + model_snapshot)
}

/// The oldest latch that refuses this pool and model.
pub open spec fn oldest_latch(
    latches: Seq<LatchView>,
    pool_id: Seq<char>,
    model_snapshot: Seq<char>,
) -> Option<LatchView>
    decreases latches.len(),
{
    if latches.len() == 0 {
        None
    } else {
        match oldest_latch(latches.drop_last(), pool_id, model_snapshot) {
            Some(latch) => Some(latch),
            None => if latch_applies(latches.last(), pool_id, model_snapshot) {
                Some(latches.last())
            } else {
                None
            },
        }
    }
}

proof fn lemma_oldest_latch_extends(
    latches: Seq<LatchView>,
    n: int,
    pool_id: Seq<char>,
    model_snapshot: Seq<char>,
)
    requires
        0 <= n <= latches.len(),
        oldest_latch(latches.take(n), pool_id, model_snapshot) is Some,
    ensures
        oldest_latch(latches, pool_id, model_snapshot) == oldest_latch(
            latches.take(n),
            pool_id,
            model_snapshot,
        ),
    decreases latches.len() - n,
{
    if n < latches.len() {
        assert(latches.take(n + 1).drop_last() =~= latches.take(n));
        lemma_oldest_latch_extends(latches, n + 1, pool_id, model_snapshot);
    } else {
        assert(latches.take(n) =~= latches);
    }
}

/// The refusal of the oldest latch in scope.
fn latch_refusal(
    latches: &Vec<LatchRow>,
    pool_id: &str,
    model_snapshot: &str,
) -> (refusal: Option<Refusal>)
    ensures
        match oldest_latch(views(latches@), pool_id@, model_snapshot@) {
            Some(latch) => refusal matches Some(r) && r@ == (RefusalView::Latched {
                scope: latch.scope,
                reason: latch.reason,
            }),
            None => refusal is None,
        },
{
    let mut model_scope = String::from_str("model:");
    model_scope.push_str(model_snapshot);
    let mut i: usize = 0;
    let ghost all = views(latches@);
    while i < latches.len()
        invariant
            i <= latches@.len(),
            all == views(latches@),
            model_scope@ == "model:"@ + model_snapshot@,
            oldest_latch(all.take(i as int), pool_id@, model_snapshot@) is None,
        decreases latches.len() - i,
    {
        let latch = &latches[i];
        assert(all.take(i + 1).drop_last() =~= all.take(i as int));
        assert(all.take(i + 1).last() == latch@);
        if latch.cleared.is_none() && (str_eq(latch.scope.as_str(), "global") || str_eq(
            latch.scope.as_str(),
            pool_id,
        ) || str_eq(latch.scope.as_str(), model_scope.as_str())) {
            proof {
                lemma_oldest_latch_extends(all, i + 1, pool_id@, model_snapshot@);
            }
            return Some(
                Refusal::Latched { scope: latch.scope.clone(), reason: latch.reason.clone() },
            );
        }
        i = i + 1;
    }
    assert(all.take(i as int) =~= all);
    None
}

// ---------------------------------------------------------------------------
// Safety inputs.

/// The position of a safety input.
pub open spec fn input_index(inputs: Seq<SafetyView>, key: Seq<char>) -> Option<int>
    decreases inputs.len(),
{
    if inputs.len() == 0 {
        None
    } else if inputs.last().key == key {
        Some(inputs.len() - 1)
    } else {
        input_index(inputs.drop_last(), key)
    }
}

pub proof fn lemma_input_index(inputs: Seq<SafetyView>, key: Seq<char>)
    ensures
        match input_index(inputs, key) {
            Some(k) => 0 <= k < inputs.len() && inputs[k].key == key,
            None => forall|k: int| 0 <= k < inputs.len() ==> (#[trigger] inputs[k]).key != key,
        },
    decreases inputs.len(),
{
    if inputs.len() > 0 {
        lemma_input_index(inputs.drop_last(), key);
        if input_index(inputs, key) is None {
            assert forall|k: int| 0 <= k < inputs.len() implies (#[trigger] inputs[k]).key
                != key by {
                if k < inputs.len() - 1 {
                    assert(inputs[k] == inputs.drop_last()[k]);
                }
            }
        }
    }
}

/// Finds a safety input.
pub fn find_input(inputs: &Vec<SafetyRow>, key: &str) -> (found: Option<usize>)
    ensures
        match found {
            Some(k) => k < inputs@.len() && input_index(views(inputs@), key@) == Some(k as int),
            None => input_index(views(inputs@), key@) is None,
        },
{
    let mut i: usize = inputs.len();
    assert(views(inputs@).take(i as int) =~= views(inputs@));
    while i > 0
        invariant
            i <= inputs@.len(),
            input_index(views(inputs@).take(i as int), key@) == input_index(views(inputs@), key@),
        decreases i,
    {
        assert(views(inputs@).take(i as int).last() == inputs@[i - 1]@);
        if str_eq(inputs[i - 1].key.as_str(), key) {
            return Some(i - 1);
        }
        assert(views(inputs@).take(i as int).drop_last() =~= views(inputs@).take(i - 1));
        i = i - 1;
    }
    None
}

/// What one required safety input says of a liability.
pub enum InputVerdict {
    Sufficient,
    Overflow,
    Refused(RefusalView),
}

/// An input vouches for a liability while it is fresh and its budget covers
/// it. A clock that has moved backwards cannot vouch for freshness.
pub open spec fn input_verdict(
    inputs: Seq<SafetyView>,
    key: Seq<char>,
    liability: i64,
    now: i64,
) -> InputVerdict {
    match input_index(inputs, key) {
        None => InputVerdict::Refused(RefusalView::SafetyInputMissing(key)),
        Some(k) => {
            let input = inputs[k];
            let expires = input.verified_at + input.ttl_seconds;
            if expires > i64::MAX {
                InputVerdict::Overflow
            } else if now >= expires || now < input.verified_at {
                InputVerdict::Refused(RefusalView::SafetyInputExpired(key))
            } else if input.budget_remaining < liability {
                InputVerdict::Refused(
                    RefusalView::SafetyBudgetExhausted { key, remaining: input.budget_remaining },
                )
            } else {
                InputVerdict::Sufficient
            }
        },
    }
}

/// The first required input, in the order of their keys, that does not vouch
/// for the liability.
pub open spec fn first_failing(
    inputs: Seq<SafetyView>,
    keys: Seq<Seq<char>>,
    liability: i64,
    now: i64,
) -> Option<Seq<char>>
    decreases keys.len(),
{
    if keys.len() == 0 {
        None
    } else {
        let key = keys.last();
        let earlier = first_failing(inputs, keys.drop_last(), liability, now);
        if input_verdict(inputs, key, liability, now) is Sufficient {
            earlier
        } else {
            match earlier {
                Some(other) if !text_lt(key, other) => Some(other),
                _ => Some(key),
            }
        }
    }
}

/// What the first failing input is.
pub proof fn lemma_first_failing(
    inputs: Seq<SafetyView>,
    keys: Seq<Seq<char>>,
    liability: i64,
    now: i64,
)
    ensures
        match first_failing(inputs, keys, liability, now) {
            Some(key) => keys.contains(key) && !(input_verdict(
                inputs,
                key,
                liability,
                now,
            ) is Sufficient),
            None => forall|j: int|
                0 <= j < keys.len() ==> input_verdict(
                    inputs,
                    #[trigger] keys[j],
                    liability,
                    now,
                ) is Sufficient,
        },
    decreases keys.len(),
{
    if keys.len() > 0 {
        lemma_first_failing(inputs, keys.drop_last(), liability, now);
        match first_failing(inputs, keys.drop_last(), liability, now) {
            Some(other) => {
                let j = choose|j: int|
                    0 <= j < keys.drop_last().len() && keys.drop_last()[j] == other;
                assert(keys[j] == other);
            },
            None => {
                assert forall|j: int| 0 <= j < keys.len() - 1 implies input_verdict(
                    inputs,
                    #[trigger] keys[j],
                    liability,
                    now,
                ) is Sufficient by {
                    assert(keys[j] == keys.drop_last()[j]);
                }
            },
        }
        assert(keys[keys.len() - 1] == keys.last());
    }
}

/// Where no required input fails, every required budget covers the liability.
proof fn lemma_budgets_suffice(
    inputs: Seq<SafetyView>,
    keys: Seq<Seq<char>>,
    liability: i64,
    now: i64,
)
    requires
        inputs_ok(inputs),
        first_failing(inputs, keys, liability, now) is None,
    ensures
        forall|i: int|
            0 <= i < inputs.len() && keys.contains((#[trigger] inputs[i]).key)
                ==> inputs[i].budget_remaining >= liability,
{
    lemma_first_failing(inputs, keys, liability, now);
    assert forall|i: int|
        0 <= i < inputs.len() && keys.contains((#[trigger] inputs[i]).key) implies inputs[
        i].budget_remaining >= liability by {
        let j = choose|j: int| 0 <= j < keys.len() && keys[j] == inputs[i].key;
        assert(input_verdict(inputs, keys[j], liability, now) is Sufficient);
        lemma_input_index(inputs, inputs[i].key);
        let n = input_index(inputs, inputs[i].key)->0;
        assert(inputs[n].key == inputs[i].key);
        if n < i {
            assert(inputs[n].key != inputs[i].key);
        } else if i < n {
            assert(inputs[i].key != inputs[n].key);
        }
    }
}

/// What a required input decides, as the ledger acts on it.
enum InputDecision {
    Sufficient,
    Overflow,
    Refused(Refusal),
}

fn judge_input(inputs: &Vec<SafetyRow>, key: &String, liability: i64, now: i64) -> (decision:
    InputDecision)
    requires
        inputs_ok(views(inputs@)),
    ensures
        match input_verdict(views(inputs@), key@, liability, now) {
            InputVerdict::Sufficient => decision is Sufficient,
            InputVerdict::Overflow => decision is Overflow,
            InputVerdict::Refused(refusal) => decision matches InputDecision::Refused(r) && r@
                == refusal,
        },
{
    match find_input(inputs, key.as_str()) {
        None => InputDecision::Refused(Refusal::SafetyInputMissing(key.clone())),
        Some(k) => {
            let input = &inputs[k];
            assert(views(inputs@)[k as int] == input@);
            match input.verified_at.checked_add(input.ttl_seconds) {
                None => InputDecision::Overflow,
                Some(expires) => {
                    if now >= expires || now < input.verified_at {
                        InputDecision::Refused(Refusal::SafetyInputExpired(key.clone()))
                    } else if input.budget_remaining < liability {
                        InputDecision::Refused(
                            Refusal::SafetyBudgetExhausted {
                                key: key.clone(),
                                remaining: input.budget_remaining,
                            },
                        )
                    } else {
                        InputDecision::Sufficient
                    }
                },
            }
        },
    }
}

/// Judges every required input; the first failing key decides.
fn judge_inputs(
    inputs: &Vec<SafetyRow>,
    keys: &Vec<String>,
    liability: i64,
    now: i64,
) -> (decision: InputDecision)
    requires
        inputs_ok(views(inputs@)),
    ensures
        match first_failing(views(inputs@), views(keys@), liability, now) {
            None => decision is Sufficient,
            Some(key) => match input_verdict(views(inputs@), key, liability, now) {
                InputVerdict::Sufficient => false,
                InputVerdict::Overflow => decision is Overflow,
                InputVerdict::Refused(refusal) => decision matches InputDecision::Refused(r) && r@
                    == refusal,
            },
        },
{
    let mut worst: Option<usize> = None;
    let mut i: usize = 0;
    let ghost all = views(keys@);
    while i < keys.len()
        invariant
            i <= keys@.len(),
            all == views(keys@),
            inputs_ok(views(inputs@)),
            match worst {
                None => first_failing(views(inputs@), all.take(i as int), liability, now) is None,
                Some(w) => w < keys@.len() && first_failing(
                    views(inputs@),
                    all.take(i as int),
                    liability,
                    now,
                ) == Some(keys@[w as int]@),
            },
        decreases keys.len() - i,
    {
        assert(all.take(i + 1).drop_last() =~= all.take(i as int));
        assert(all.take(i + 1).last() == keys@[i as int]@);
        match judge_input(inputs, &keys[i], liability, now) {
            InputDecision::Sufficient => {},
            _ => {
                match worst {
                    None => {
                        worst = Some(i);
                    },
                    Some(w) => {
                        if text_before(keys[i].as_str(), keys[w].as_str()) {
                            worst = Some(i);
                        }
                    },
                }
            },
        }
        i = i + 1;
    }
    proof {
        assert(all.take(i as int) =~= all);
        lemma_first_failing(views(inputs@), all, liability, now);
    }
    match worst {
        None => InputDecision::Sufficient,
        Some(w) => judge_input(inputs, &keys[w], liability, now),
    }
}

fn requires_key(keys: &Vec<String>, key: &String) -> (found: bool)
    ensures
        found == views(keys@).contains(key@),
{
    let mut i: usize = 0;
    while i < keys.len()
        invariant
            i <= keys@.len(),
            forall|j: int| 0 <= j < i ==> views(keys@)[j] != key@,
        decreases keys.len() - i,
    {
        if str_eq(keys[i].as_str(), key.as_str()) {
            assert(views(keys@)[i as int] == key@);
            return true;
        }
        i = i + 1;
    }
    false
}

/// The inputs with the budgets of the required ones debited.
pub open spec fn debited(
    inputs: Seq<SafetyView>,
    keys: Seq<Seq<char>>,
    liability: i64,
) -> Seq<SafetyView> {
    Seq::new(
        inputs.len(),
        |i: int|
            if keys.contains(inputs[i].key) {
                SafetyView {
                    budget_remaining: (inputs[i].budget_remaining - liability) as i64,
                    ..inputs[i]
                }
            } else {
                inputs[i]
            },
    )
}

// ---------------------------------------------------------------------------
// Admission.

/// The id after the last row's. Ids start at one.
pub open spec fn next_id(rows: Seq<RowView>) -> int {
    if rows.len() == 0 {
        1
    } else {
        rows.last().id + 1
    }
}

/// What is left of a pool day.
pub open spec fn remaining_of(pool: PoolView) -> int {
    pool.granted - pool.consumed - pool.reserved
}

/// The row a reservation starts as.
pub open spec fn reserved_row(request: RequestView, id: i64, epoch: i64, now: i64) -> RowView {
    RowView {
        id,
        root_id: id,
        pool_id: request.pool_id,
        epoch,
        state: State::Reserved,
        liability: request.liability as i64,
        settled: None,
        response_id: None,
        request_digest: request.request_digest,
        model_snapshot: request.model_snapshot,
        service_tier: request.service_tier,
        accounting_rev: request.accounting_rev,
        created_at: now,
    }
}

/// Compare-and-reserve: the outcome, and the tables after it.
pub open spec fn reserve_outcome(
    t: TablesView,
    trust: TrustVerdict,
    request: RequestView,
    now: i64,
) -> (Result<AdmissionView, ErrorView>, TablesView) {
    let epoch = t.meta.current_epoch;
    let liability = request.liability as i64;
    let keys = request.required_safety_inputs;
    if trust != TrustVerdict::Trusted {
        (Ok(AdmissionView::Refused(RefusalView::Untrusted(trust))), t)
    } else if request.liability > i64::MAX {
        (Err(ErrorView::Overflow), t)
    } else if oldest_latch(t.latches, request.pool_id, request.model_snapshot) is Some {
        let latch = oldest_latch(t.latches, request.pool_id, request.model_snapshot)->0;
        (
            Ok(
                AdmissionView::Refused(
                    RefusalView::Latched { scope: latch.scope, reason: latch.reason },
                ),
            ),
            t,
        )
    } else if first_failing(t.inputs, keys, liability, now) is Some {
        let key = first_failing(t.inputs, keys, liability, now)->0;
        (
            match input_verdict(t.inputs, key, liability, now) {
                InputVerdict::Refused(refusal) => Ok(AdmissionView::Refused(refusal)),
                _ => Err(ErrorView::Overflow),
            },
            t,
        )
    } else {
        match pool_index(t.pools, request.pool_id, epoch) {
            None => (
                Ok(
                    AdmissionView::Refused(
                        RefusalView::PoolNotOpen { pool_id: request.pool_id, epoch },
                    ),
                ),
                t,
            ),
            Some(k) => {
                let remaining = remaining_of(t.pools[k]);
                if remaining < i64::MIN {
                    (Err(ErrorView::Overflow), t)
                } else if remaining < liability {
                    (
                        Ok(
                            AdmissionView::Refused(
                                RefusalView::InsufficientQuota {
                                    remaining: remaining as i64,
                                    liability,
                                },
                            ),
                        ),
                        t,
                    )
                } else if in_flight(t.rows) >= MAX_IN_FLIGHT {
                    (
                        Ok(
                            AdmissionView::Refused(
                                RefusalView::TooManyInFlight {
                                    open: in_flight(t.rows) as usize,
                                },
                            ),
                        ),
                        t,
                    )
                } else if next_id(t.rows) > i64::MAX {
                    (Err(ErrorView::Overflow), t)
                } else {
                    let id = next_id(t.rows) as i64;
                    (
                        Ok(AdmissionView::Reserved(ReservationId(id))),
                        TablesView {
                            pools: t.pools.update(
                                k,
                                PoolView {
                                    reserved: (t.pools[k].reserved + liability) as i64,
                                    ..t.pools[k]
                                },
                            ),
                            rows: t.rows.push(reserved_row(request, id, epoch, now)),
                            inputs: debited(t.inputs, keys, liability),
                            ..t
                        },
                    )
                }
            },
        }
    }
}

/// Law: admission leaves the tables in the shape the schema keeps.
pub proof fn reserve_keeps_the_shape(
    t: TablesView,
    trust: TrustVerdict,
    request: RequestView,
    now: i64,
)
    requires
        tables_ok(t),
    ensures
        tables_ok(reserve_outcome(t, trust, request, now).1),
{
    let after = reserve_outcome(t, trust, request, now).1;
    let liability = request.liability as i64;
    let keys = request.required_safety_inputs;
    let epoch = t.meta.current_epoch;
    if after != t {
        lemma_pool_index(t.pools, request.pool_id, epoch);
        let k = pool_index(t.pools, request.pool_id, epoch)->0;
        assert forall|pool: Seq<char>, e: i64|
            has_pool(t.pools, pool, e) implies has_pool(after.pools, pool, e) by {
            let j = choose|j: int|
                0 <= j < t.pools.len() && (#[trigger] t.pools[j]).pool_id == pool
                    && t.pools[j].epoch == e;
            assert(after.pools[j].pool_id == pool && after.pools[j].epoch == e);
        }
        lemma_budgets_suffice(t.inputs, keys, liability, now);
        assert(inputs_ok(after.inputs));
        assert(pools_ok(after.pools, epoch));
        assert(after.pools[k] == after.pools[k]);
        assert(has_pool(after.pools, request.pool_id, epoch));
        assert forall|i: int| 0 <= i < after.rows.len() implies row_ok(
            #[trigger] after.rows[i],
            epoch,
        ) && has_pool(after.pools, after.rows[i].pool_id, after.rows[i].epoch) by {
            if i < t.rows.len() {
                assert(after.rows[i] == t.rows[i]);
            }
        }
        assert forall|i: int, j: int| 0 <= i < j < after.rows.len() implies (
        #[trigger] after.rows[i]).id < (#[trigger] after.rows[j]).id by {
            assert(t.rows[i].id <= t.rows.last().id) by {
                assert(t.rows.last() == t.rows[t.rows.len() - 1]);
            }
        }
        assert forall|i: int, j: int|
            0 <= i < j < after.rows.len() && after.rows[i].root_id
                == after.rows[j].root_id implies (#[trigger] after.rows[i]).epoch < (
        #[trigger] after.rows[j]).epoch by {
            if j == t.rows.len() {
                assert(t.rows[i].id <= t.rows.last().id) by {
                    assert(t.rows.last() == t.rows[t.rows.len() - 1]);
                }
                assert(row_ok(t.rows[i], epoch));
            }
        }
        assert(rows_ok(after.rows, after.pools, epoch));
        lemma_rooted_extends(t.rows, after.rows);
    }
}

/// Law: admission keeps the books in order, the tally exact and the pools
/// within their grants.
pub proof fn reserve_keeps_the_books(
    t: TablesView,
    trust: TrustVerdict,
    request: RequestView,
    now: i64,
)
    requires
        tables_ok(t),
        sound(t),
    ensures
        sound(reserve_outcome(t, trust, request, now).1),
        ({
            let after = reserve_outcome(t, trust, request, now).1;
            &&& same_grants(t.pools, after.pools)
            &&& tallied(t.pools, t.rows) ==> tallied(after.pools, after.rows)
            &&& within_grants(t.pools, t.rows) ==> within_grants(after.pools, after.rows)
        }),
{
    let after = reserve_outcome(t, trust, request, now).1;
    let liability = request.liability as i64;
    let epoch = t.meta.current_epoch;
    if after != t {
        lemma_pool_index(t.pools, request.pool_id, epoch);
        let k = pool_index(t.pools, request.pool_id, epoch)->0;
        let row = after.rows.last();
        assert(after.rows =~= t.rows.push(row));
        assert forall|i: int| 0 <= i < after.pools.len() implies (
        #[trigger] after.pools[i]).reserved == held(
            after.rows,
            after.pools[i].pool_id,
            after.pools[i].epoch,
        ) && spent(after.rows, after.pools[i].pool_id, after.pools[i].epoch) == spent(
            t.rows,
            t.pools[i].pool_id,
            t.pools[i].epoch,
        ) && overrun(after.rows, after.pools[i].pool_id, after.pools[i].epoch) == overrun(
            t.rows,
            t.pools[i].pool_id,
            t.pools[i].epoch,
        ) && overrun(t.rows, t.pools[i].pool_id, t.pools[i].epoch) >= 0 by {
            let p = t.pools[i];
            lemma_total_push(t.rows, row, held_term(p.pool_id, p.epoch));
            lemma_total_push(t.rows, row, spent_term(p.pool_id, p.epoch));
            lemma_total_push(t.rows, row, overrun_term(p.pool_id, p.epoch));
            lemma_overrun_is_not_negative(t.rows, p.pool_id, p.epoch);
            if i < k {
                assert(!same_pool(t.pools[i], t.pools[k]));
            } else if k < i {
                assert(!same_pool(t.pools[k], t.pools[i]));
            }
        }
        assert forall|i: int, j: int|
            0 <= i < after.rows.len() && 0 <= j < after.rows.len() && (
            #[trigger] after.rows[i]).root_id == (#[trigger] after.rows[j]).root_id implies
            after.rows[i].state == after.rows[j].state && after.rows[i].liability
            == after.rows[j].liability by {
            let n = t.rows.len();
            if n > 0 {
                assert(t.rows.last() == t.rows[n - 1]);
            }
            if i < n {
                assert(row_ok(t.rows[i], epoch));
            }
            if j < n {
                assert(row_ok(t.rows[j], epoch));
            }
        }
    }
}

/// Law: a safety budget is debited by every admission that required it, by
/// the whole liability, and by nothing else.
pub proof fn an_admission_debits_its_inputs(
    t: TablesView,
    trust: TrustVerdict,
    request: RequestView,
    now: i64,
    i: int,
)
    requires
        tables_ok(t),
        0 <= i < t.inputs.len(),
    ensures
        ({
            let (outcome, after) = reserve_outcome(t, trust, request, now);
            let admitted = outcome matches Ok(AdmissionView::Reserved(_));
            after.inputs[i].budget_remaining == if admitted
                && request.required_safety_inputs.contains(t.inputs[i].key) {
                t.inputs[i].budget_remaining - request.liability
            } else {
                t.inputs[i].budget_remaining as int
            }
        }),
{
    let liability = request.liability as i64;
    if reserve_outcome(t, trust, request, now).0 matches Ok(AdmissionView::Reserved(_)) {
        lemma_budgets_suffice(t.inputs, request.required_safety_inputs, liability, now);
    }
}

/// Law: a ledger that is not trusted admits nothing, and neither does one
/// with a latch in scope.
pub proof fn nothing_is_admitted_untrusted_or_latched(
    t: TablesView,
    trust: TrustVerdict,
    request: RequestView,
    now: i64,
    i: int,
)
    requires
        trust != TrustVerdict::Trusted || (0 <= i < t.latches.len() && latch_applies(
            t.latches[i],
            request.pool_id,
            request.model_snapshot,
        )),
    ensures
        !(reserve_outcome(t, trust, request, now).0 matches Ok(AdmissionView::Reserved(_))),
        reserve_outcome(t, trust, request, now).1 == t,
{
    if trust == TrustVerdict::Trusted {
        lemma_applying_latch_is_found(t.latches, i, request.pool_id, request.model_snapshot);
    }
}

/// Law: a request that is not admitted costs nothing. Whatever the reason,
/// the ledger stays as it was.
pub proof fn a_refusal_costs_nothing(
    t: TablesView,
    trust: TrustVerdict,
    request: RequestView,
    now: i64,
)
    ensures
        !(reserve_outcome(t, trust, request, now).0 matches Ok(AdmissionView::Reserved(_)))
            ==> reserve_outcome(t, trust, request, now).1 == t,
{
}

/// Law: a request is admitted only where its whole liability fits in what the
/// open epoch's pool has left.
pub proof fn only_what_fits_is_admitted(
    t: TablesView,
    trust: TrustVerdict,
    request: RequestView,
    now: i64,
)
    ensures
        reserve_outcome(t, trust, request, now).0 matches Ok(AdmissionView::Reserved(_)) ==> (
        pool_index(t.pools, request.pool_id, t.meta.current_epoch) matches Some(k)
            && request.liability <= remaining_of(t.pools[k])),
{
}

/// Law: nothing is admitted while as many dispatches are open as there may be.
pub proof fn nothing_is_admitted_past_the_open_limit(
    t: TablesView,
    trust: TrustVerdict,
    request: RequestView,
    now: i64,
)
    requires
        in_flight(t.rows) >= MAX_IN_FLIGHT,
    ensures
        !(reserve_outcome(t, trust, request, now).0 matches Ok(AdmissionView::Reserved(_))),
        reserve_outcome(t, trust, request, now).1 == t,
{
}

proof fn lemma_applying_latch_is_found(
    latches: Seq<LatchView>,
    i: int,
    pool_id: Seq<char>,
    model_snapshot: Seq<char>,
)
    requires
        0 <= i < latches.len(),
        latch_applies(latches[i], pool_id, model_snapshot),
    ensures
        oldest_latch(latches, pool_id, model_snapshot) is Some,
    decreases latches.len(),
{
    if i < latches.len() - 1 {
        lemma_applying_latch_is_found(latches.drop_last(), i, pool_id, model_snapshot);
    }
}

impl Ledger {
    /// Compare-and-reserve. Checks and debits everything the admission
    /// depends on at once; nothing may be sent unless this returns
    /// `Reserved`.
    pub fn reserve(&mut self, request: &ReservationRequest, now: i64) -> (result: Result<
        Admission,
        LedgerError,
    >)
        requires
            old(self).ok(),
        ensures
            final(self).ok(),
            final(self).trust == old(self).trust,
            (admission_view(result), final(self).tables@) == reserve_outcome(
                old(self).tables@,
                old(self).trust,
                request@,
                now,
            ),
    {
        proof {
            reserve_keeps_the_shape(self.tables@, self.trust, request@, now);
        }
        let ghost before = self.tables@;
        if self.trust != TrustVerdict::Trusted {
            return Ok(Admission::Refused(Refusal::Untrusted(self.trust)));
        }
        if request.liability > i64::MAX as u64 {
            return Err(LedgerError::Overflow);
        }
        let liability: i64 = request.liability as i64;
        match latch_refusal(
            &self.tables.latches,
            request.pool_id.as_str(),
            request.model_snapshot.as_str(),
        ) {
            Some(refusal) => return Ok(Admission::Refused(refusal)),
            None => {},
        }
        proof {
            lemma_first_failing(
                before.inputs,
                request@.required_safety_inputs,
                liability,
                now,
            );
        }
        match judge_inputs(&self.tables.inputs, &request.required_safety_inputs, liability, now) {
            InputDecision::Sufficient => {},
            InputDecision::Overflow => return Err(LedgerError::Overflow),
            InputDecision::Refused(refusal) => return Ok(Admission::Refused(refusal)),
        }
        let epoch: i64 = self.tables.meta.current_epoch;
        proof {
            lemma_pool_index(before.pools, request.pool_id@, epoch);
        }
        let k = match find_pool(&self.tables.pools, request.pool_id.as_str(), epoch) {
            None => return Ok(
                Admission::Refused(
                    Refusal::PoolNotOpen { pool_id: request.pool_id.clone(), epoch },
                ),
            ),
            Some(k) => k,
        };
        assert(before.pools[k as int] == self.tables.pools@[k as int]@);
        let granted: i64 = self.tables.pools[k].granted;
        let consumed: i64 = self.tables.pools[k].consumed;
        let reserved: i64 = self.tables.pools[k].reserved;
        let unspent: i64 = granted - consumed;
        let remaining: i64 = match unspent.checked_sub(reserved) {
            None => return Err(LedgerError::Overflow),
            Some(remaining) => remaining,
        };
        if remaining < liability {
            return Ok(Admission::Refused(Refusal::InsufficientQuota { remaining, liability }));
        }
        let open = count_in_flight(&self.tables.rows);
        if open >= MAX_IN_FLIGHT {
            return Ok(Admission::Refused(Refusal::TooManyInFlight { open }));
        }
        let count = self.tables.rows.len();
        let last: i64 = if count == 0 {
            0
        } else {
            self.tables.rows[count - 1].id
        };
        assert(count > 0 ==> before.rows.last() == self.tables.rows@[count - 1]@);
        let id: i64 = match last.checked_add(1) {
            None => return Err(LedgerError::Overflow),
            Some(id) => id,
        };
        let ghost after = reserve_outcome(before, self.trust, request@, now).1;
        self.tables.pools[k].reserved = reserved + liability;
        assert(views(self.tables.pools@) =~= after.pools);
        proof {
            lemma_budgets_suffice(before.inputs, request@.required_safety_inputs, liability, now);
            assert forall|i: int|
                0 <= i < self.tables.inputs@.len() && views(
                    request.required_safety_inputs@,
                ).contains((#[trigger] self.tables.inputs@[i]).key@) implies self.tables.inputs@[
            i].budget_remaining >= liability by {
                assert(before.inputs[i] == self.tables.inputs@[i]@);
            }
        }
        debit(&mut self.tables.inputs, &request.required_safety_inputs, liability);
        self.tables.rows.push(
            ReservationRow {
                id,
                root_id: id,
                pool_id: request.pool_id.clone(),
                epoch,
                state: State::Reserved,
                liability,
                settled: None,
                response_id: None,
                request_digest: request.request_digest.clone(),
                model_snapshot: request.model_snapshot.clone(),
                service_tier: request.service_tier.clone(),
                accounting_rev: request.accounting_rev,
                created_at: now,
            },
        );
        assert(views(self.tables.rows@) =~= after.rows);
        assert(self.tables@ == after);
        Ok(Admission::Reserved(ReservationId(id)))
    }
}

/// Debits the budgets of the required inputs.
fn debit(inputs: &mut Vec<SafetyRow>, keys: &Vec<String>, liability: i64)
    requires
        0 <= liability,
        forall|i: int|
            0 <= i < old(inputs)@.len() && views(keys@).contains(
                (#[trigger] old(inputs)@[i]).key@,
            ) ==> old(inputs)@[i].budget_remaining >= liability,
    ensures
        views(final(inputs)@) == debited(views(old(inputs)@), views(keys@), liability),
{
    let mut i: usize = 0;
    let ghost before = views(inputs@);
    let ghost after = debited(before, views(keys@), liability);
    while i < inputs.len()
        invariant
            i <= inputs@.len(),
            inputs@.len() == before.len(),
            before == views(old(inputs)@),
            after == debited(before, views(keys@), liability),
            0 <= liability,
            forall|j: int| 0 <= j < i ==> (#[trigger] inputs@[j])@ == after[j],
            forall|j: int| i <= j < before.len() ==> (#[trigger] inputs@[j])@ == before[j],
            forall|j: int|
                0 <= j < old(inputs)@.len() && views(keys@).contains(
                    (#[trigger] old(inputs)@[j]).key@,
                ) ==> old(inputs)@[j].budget_remaining >= liability,
        decreases inputs.len() - i,
    {
        assert(inputs@[i as int]@ == before[i as int]);
        assert(before[i as int] == old(inputs)@[i as int]@);
        if requires_key(keys, &inputs[i].key) {
            let remaining: i64 = inputs[i].budget_remaining - liability;
            inputs[i].budget_remaining = remaining;
        }
        assert(inputs@[i as int]@ == after[i as int]);
        i = i + 1;
    }
    assert(views(inputs@) =~= after);
}

/// The oldest latch in scope is one that applies, with none before it.
pub proof fn lemma_latch_found(
    latches: Seq<LatchView>,
    pool_id: Seq<char>,
    model_snapshot: Seq<char>,
)
    ensures
        match oldest_latch(latches, pool_id, model_snapshot) {
            Some(latch) => exists|i: int|
                0 <= i < latches.len() && #[trigger] latches[i] == latch && latch_applies(
                    latch,
                    pool_id,
                    model_snapshot,
                ) && forall|j: int|
                    0 <= j < i ==> !latch_applies(#[trigger] latches[j], pool_id, model_snapshot),
            None => forall|j: int|
                0 <= j < latches.len() ==> !latch_applies(
                    #[trigger] latches[j],
                    pool_id,
                    model_snapshot,
                ),
        },
    decreases latches.len(),
{
    if latches.len() > 0 {
        let front = latches.drop_last();
        let n = latches.len() - 1;
        lemma_latch_found(front, pool_id, model_snapshot);
        assert forall|j: int| 0 <= j < n implies front[j] == #[trigger] latches[j] by {}
        match oldest_latch(front, pool_id, model_snapshot) {
            Some(latch) => {
                let i = choose|i: int|
                    0 <= i < front.len() && #[trigger] front[i] == latch && latch_applies(
                        latch,
                        pool_id,
                        model_snapshot,
                    ) && forall|j: int|
                        0 <= j < i ==> !latch_applies(#[trigger] front[j], pool_id, model_snapshot);
                assert(latches[i] == latch);
                assert forall|j: int| 0 <= j < i implies !latch_applies(
                    #[trigger] latches[j],
                    pool_id,
                    model_snapshot,
                ) by {
                    assert(front[j] == latches[j]);
                }
            },
            None => {
                assert forall|j: int| 0 <= j < n implies !latch_applies(
                    #[trigger] latches[j],
                    pool_id,
                    model_snapshot,
                ) by {
                    assert(front[j] == latches[j]);
                }
                assert(latches[n] == latches.last());
            },
        }
    }
}

} // verus!
