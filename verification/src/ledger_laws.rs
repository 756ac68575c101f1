//! What holds of every admission: when a request is admitted, what is then held
//! for it, and what a refusal says.
use vstd::prelude::*;

use crate::ledger::{
    first_failing, input_index, input_verdict, lemma_first_failing, lemma_input_index,
    lemma_latch_found, oldest_latch, reserve_outcome, AdmissionView, RefusalView, RequestView,
    ReservationId,
};
use crate::state::State;
use crate::tables::{
    in_flight, lemma_pool_index, pool_index, tables_ok, LatchView, SafetyView, TablesView,
};
use crate::trust::TrustVerdict;

verus! {

/// Whether a latch stands in the way of a pool and a model: an open one for
/// everything, for the pool, or for the model.
pub open spec fn bars(latch: LatchView, request: RequestView) -> bool {
    &&& latch.cleared is None
    &&& latch.scope == "global"@ || latch.scope == request.pool_id || latch.scope == "model:"@
        + request.model_snapshot
}

/// Whether an input vouches for a liability: verified, not in the future, not
/// expired, and with a budget that covers it.
pub open spec fn vouches(input: SafetyView, liability: u64, now: i64) -> bool {
    &&& input.verified_at <= now < input.verified_at + input.ttl_seconds
    &&& input.verified_at + input.ttl_seconds <= i64::MAX
    &&& liability <= input.budget_remaining
}

/// Law: a request is admitted exactly where the ledger is trusted, no latch
/// bars it, every input it requires vouches for it, its pool has been opened
/// for the current day with enough left for the whole liability, fewer than
/// thirty-two dispatches are open, and there is another id.
pub proof fn what_may_be_admitted_is(
    t: TablesView,
    trust: TrustVerdict,
    request: RequestView,
    now: i64,
)
    requires
        tables_ok(t),
    ensures
        reserve_outcome(t, trust, request, now).0 matches Ok(AdmissionView::Reserved(_)) <==> {
            &&& trust == TrustVerdict::Trusted
            &&& forall|i: int| 0 <= i < t.latches.len() ==> !bars(#[trigger] t.latches[i], request)
            &&& forall|j: int|
                0 <= j < request.required_safety_inputs.len() ==> exists|i: int|
                    0 <= i < t.inputs.len() && (#[trigger] t.inputs[i]).key == (
                    #[trigger] request.required_safety_inputs[j]) && vouches(
                        t.inputs[i],
                        request.liability,
                        now,
                    )
            &&& exists|k: int|
                0 <= k < t.pools.len() && (#[trigger] t.pools[k]).pool_id == request.pool_id
                    && t.pools[k].epoch == t.meta.current_epoch && request.liability
                    + t.pools[k].reserved + t.pools[k].consumed <= t.pools[k].granted
            &&& in_flight(t.rows) < 32
            &&& t.rows.len() == 0 || t.rows.last().id < i64::MAX
        },
{
    lemma_latch_found(t.latches, request.pool_id, request.model_snapshot);
    lemma_pool_index(t.pools, request.pool_id, t.meta.current_epoch);
    if request.liability <= i64::MAX {
        lemma_vouched(t.inputs, request, now);
    }
    if exists|i: int| 0 <= i < t.latches.len() && bars(#[trigger] t.latches[i], request) {
        assert(oldest_latch(t.latches, request.pool_id, request.model_snapshot) is Some);
    }
    if let Some(k) = pool_index(t.pools, request.pool_id, t.meta.current_epoch) {
        assert forall|j: int|
            0 <= j < t.pools.len() && (#[trigger] t.pools[j]).pool_id == request.pool_id
                && t.pools[j].epoch == t.meta.current_epoch implies j == k by {
            if j < k {
                assert(!crate::tables::same_pool(t.pools[j], t.pools[k]));
            } else if k < j {
                assert(!crate::tables::same_pool(t.pools[k], t.pools[j]));
            }
        }
    }
}

proof fn lemma_vouched(inputs: Seq<SafetyView>, request: RequestView, now: i64)
    requires
        crate::tables::inputs_ok(inputs),
        request.liability <= i64::MAX,
    ensures
        first_failing(inputs, request.required_safety_inputs, request.liability as i64, now) is None
            <==> forall|j: int|
            0 <= j < request.required_safety_inputs.len() ==> exists|i: int|
                0 <= i < inputs.len() && (#[trigger] inputs[i]).key == (
                #[trigger] request.required_safety_inputs[j]) && vouches(
                    inputs[i],
                    request.liability,
                    now,
                ),
{
    let keys = request.required_safety_inputs;
    let liability = request.liability as i64;
    lemma_first_failing(inputs, keys, liability, now);
    assert forall|j: int| 0 <= j < keys.len() implies (input_verdict(
        inputs,
        #[trigger] keys[j],
        liability,
        now,
    ) is Sufficient <==> exists|i: int|
        0 <= i < inputs.len() && (#[trigger] inputs[i]).key == keys[j] && vouches(
            inputs[i],
            request.liability,
            now,
        )) by {
        lemma_input_index(inputs, keys[j]);
        if let Some(k) = input_index(inputs, keys[j]) {
            assert(inputs[k].key == keys[j]);
            assert forall|i: int| 0 <= i < inputs.len() && (#[trigger] inputs[i]).key
                == keys[j] implies i == k by {
                if i < k {
                    assert(inputs[i].key != inputs[k].key);
                } else if k < i {
                    assert(inputs[k].key != inputs[i].key);
                }
            }
        }
    }
    if let Some(key) = first_failing(inputs, keys, liability, now) {
        let j = choose|j: int| 0 <= j < keys.len() && keys[j] == key;
        assert(!(input_verdict(inputs, keys[j], liability, now) is Sufficient));
    }
}

/// Law: what is held for an admitted request is what was asked: a new row under
/// the next id, reserved in the current day of its pool for the whole
/// liability, with the model, tier, digest and accounting revision of the
/// request. The pool's day has that much more reserved, and nothing else about
/// any pool, any other row, the latches or the record of dispatches changes.
pub proof fn an_admission_holds_what_was_asked(
    t: TablesView,
    trust: TrustVerdict,
    request: RequestView,
    now: i64,
    id: ReservationId,
)
    requires
        tables_ok(t),
        reserve_outcome(t, trust, request, now).0 matches Ok(AdmissionView::Reserved(given))
            && given == id,
    ensures
        ({
            let after = reserve_outcome(t, trust, request, now).1;
            let row = after.rows.last();
            &&& after.rows == t.rows.push(row)
            &&& id.0 == if t.rows.len() == 0 {
                1
            } else {
                t.rows.last().id + 1
            }
            &&& row.id == id.0
            &&& row.root_id == id.0
            &&& row.pool_id == request.pool_id
            &&& row.epoch == t.meta.current_epoch
            &&& row.state == State::Reserved
            &&& row.liability == request.liability
            &&& row.settled is None
            &&& row.response_id is None
            &&& row.request_digest == request.request_digest
            &&& row.model_snapshot == request.model_snapshot
            &&& row.service_tier == request.service_tier
            &&& row.accounting_rev == request.accounting_rev
            &&& row.created_at == now
            &&& after.pools.len() == t.pools.len()
            &&& forall|k: int|
                0 <= k < t.pools.len() ==> {
                    let before = #[trigger] t.pools[k];
                    &&& after.pools[k].pool_id == before.pool_id
                    &&& after.pools[k].epoch == before.epoch
                    &&& after.pools[k].granted == before.granted
                    &&& after.pools[k].consumed == before.consumed
                    &&& after.pools[k].reserved == before.reserved + (if before.pool_id
                        == request.pool_id && before.epoch == t.meta.current_epoch {
                        request.liability as int
                    } else {
                        0
                    })
                }
            &&& after.latches == t.latches
            &&& after.meta == t.meta
            &&& after.counters == t.counters
            &&& after.dispatches == t.dispatches
        }),
{
    lemma_pool_index(t.pools, request.pool_id, t.meta.current_epoch);
    let k = pool_index(t.pools, request.pool_id, t.meta.current_epoch)->0;
    let after = reserve_outcome(t, trust, request, now).1;
    assert(after.rows.last() == after.rows[t.rows.len() as int]);
    assert forall|j: int|
        0 <= j < t.pools.len() && (#[trigger] t.pools[j]).pool_id == request.pool_id
            && t.pools[j].epoch == t.meta.current_epoch implies j == k by {
        if j < k {
            assert(!crate::tables::same_pool(t.pools[j], t.pools[k]));
        } else if k < j {
            assert(!crate::tables::same_pool(t.pools[k], t.pools[j]));
        }
    }
}

/// Law: a refusal says what stands in the way: the verdict on the ledger, a
/// latch that bars the request with none that is older, an input that is
/// missing, expired or too small, a pool that was not opened for the current
/// day, what the pool has left, or how many dispatches are open.
pub proof fn a_refusal_says_what_stands_in_the_way(
    t: TablesView,
    trust: TrustVerdict,
    request: RequestView,
    now: i64,
)
    requires
        tables_ok(t),
    ensures
        match reserve_outcome(t, trust, request, now).0 {
            Ok(AdmissionView::Refused(refusal)) => match refusal {
                RefusalView::Untrusted(verdict) => verdict == trust && trust
                    != TrustVerdict::Trusted,
                RefusalView::Latched { scope, reason } => exists|i: int|
                    0 <= i < t.latches.len() && bars(#[trigger] t.latches[i], request)
                        && t.latches[i].scope == scope && t.latches[i].reason == reason
                        && forall|j: int|
                        0 <= j < i ==> !bars(#[trigger] t.latches[j], request),
                RefusalView::SafetyInputMissing(key) => request.required_safety_inputs.contains(key)
                    && forall|i: int| 0 <= i < t.inputs.len() ==> (#[trigger] t.inputs[i]).key
                    != key,
                RefusalView::SafetyInputExpired(key) => request.required_safety_inputs.contains(key)
                    && exists|i: int|
                    0 <= i < t.inputs.len() && (#[trigger] t.inputs[i]).key == key && !(
                    t.inputs[i].verified_at <= now < t.inputs[i].verified_at
                        + t.inputs[i].ttl_seconds),
                RefusalView::SafetyBudgetExhausted { key, remaining } =>
                    request.required_safety_inputs.contains(key) && exists|i: int|
                    0 <= i < t.inputs.len() && (#[trigger] t.inputs[i]).key == key
                        && t.inputs[i].budget_remaining == remaining && remaining
                        < request.liability,
                RefusalView::PoolNotOpen { pool_id, epoch } => pool_id == request.pool_id && epoch
                    == t.meta.current_epoch && forall|k: int|
                    0 <= k < t.pools.len() ==> !((#[trigger] t.pools[k]).pool_id == pool_id
                        && t.pools[k].epoch == epoch),
                RefusalView::InsufficientQuota { remaining, liability } => liability
                    == request.liability && remaining < liability && exists|k: int|
                    0 <= k < t.pools.len() && (#[trigger] t.pools[k]).pool_id == request.pool_id
                        && t.pools[k].epoch == t.meta.current_epoch && t.pools[k].granted
                        - t.pools[k].consumed - t.pools[k].reserved == remaining,
                RefusalView::TooManyInFlight { open } => in_flight(t.rows) >= 32 && (in_flight(
                    t.rows,
                ) <= usize::MAX ==> open == in_flight(t.rows)),
            },
            Ok(AdmissionView::Reserved(_)) => true,
            Err(error) => error is Overflow,
        },
{
    lemma_latch_found(t.latches, request.pool_id, request.model_snapshot);
    lemma_pool_index(t.pools, request.pool_id, t.meta.current_epoch);
    let keys = request.required_safety_inputs;
    let liability = request.liability as i64;
    lemma_first_failing(t.inputs, keys, liability, now);
    if let Some(key) = first_failing(t.inputs, keys, liability, now) {
        lemma_input_index(t.inputs, key);
        if let Some(k) = input_index(t.inputs, key) {
            assert(t.inputs[k].key == key);
        }
    }
    if let Some(k) = pool_index(t.pools, request.pool_id, t.meta.current_epoch) {
        assert(t.pools[k].pool_id == request.pool_id);
    }
    if let Some(latch) = oldest_latch(t.latches, request.pool_id, request.model_snapshot) {
        let i = choose|i: int|
            0 <= i < t.latches.len() && #[trigger] t.latches[i] == latch
                && crate::ledger::latch_applies(latch, request.pool_id, request.model_snapshot)
                && forall|j: int|
                0 <= j < i ==> !crate::ledger::latch_applies(
                    #[trigger] t.latches[j],
                    request.pool_id,
                    request.model_snapshot,
                );
        assert(bars(t.latches[i], request));
        assert forall|j: int| 0 <= j < i implies !bars(#[trigger] t.latches[j], request) by {
            assert(!crate::ledger::latch_applies(
                t.latches[j],
                request.pool_id,
                request.model_snapshot,
            ));
        }
    }
}

} // verus!
