//! Safety inputs, latches, and what the ledger reports of itself.
use vstd::prelude::*;
use vstd::string::*;

use crate::error::{ErrorView, LedgerError};
use crate::ledger::{find_input, input_index, lemma_input_index, Ledger, ReservationId};
use crate::state::State;
use crate::tables::{
    copy_text, find_pool, inputs_ok, pool_index, tables_ok, text_view, views, LatchView, RowView,
    SafetyRow, SafetyView, TablesView,
};
use crate::text::{str_eq, str_view};
use crate::transitions::{committed, group_of, load_group};
use crate::trust::{LedgerMeta, TrustVerdict};

verus! {

#[derive(Debug, Clone, Copy, PartialEq, Eq, Structural)]
pub struct PoolCounters {
    pub granted: i64,
    pub consumed: i64,
    pub reserved: i64,
}

/// A reservation that was sent and is not yet settled.
#[derive(Debug, PartialEq, Eq)]
pub struct OpenDispatch {
    pub id: ReservationId,
    /// `DispatchedWithId` or `DispatchedIdUnknown`.
    pub state: State,
    pub response_id: Option<String>,
    pub created_at: i64,
}

pub struct OpenDispatchView {
    pub id: ReservationId,
    pub state: State,
    pub response_id: Option<Seq<char>>,
    pub created_at: i64,
}

impl View for OpenDispatch {
    type V = OpenDispatchView;

    open spec fn view(&self) -> OpenDispatchView {
        OpenDispatchView {
            id: self.id,
            state: self.state,
            response_id: text_view(self.response_id),
            created_at: self.created_at,
        }
    }
}

// ---------------------------------------------------------------------------
// Safety inputs.

/// The inputs with one verified anew. Resets both the freshness window and the
/// liability budget.
pub open spec fn revalidated(inputs: Seq<SafetyView>, input: SafetyView) -> Seq<SafetyView> {
    match input_index(inputs, input.key) {
        Some(k) => inputs.update(k, input),
        None => inputs.push(input),
    }
}

/// Recording a verification: a budget must be storable and a freshness window
/// positive.
pub open spec fn revalidate_outcome(
    t: TablesView,
    key: Seq<char>,
    now: i64,
    ttl_seconds: i64,
    budget: u64,
) -> Result<TablesView, ErrorView> {
    if budget > i64::MAX {
        Err(ErrorView::Overflow)
    } else if ttl_seconds <= 0 {
        Err(ErrorView::ConstraintViolated)
    } else {
        Ok(
            TablesView {
                inputs: revalidated(
                    t.inputs,
                    SafetyView {
                        key,
                        verified_at: now,
                        ttl_seconds,
                        budget_initial: budget as i64,
                        budget_remaining: budget as i64,
                    },
                ),
                ..t
            },
        )
    }
}

/// The inputs without one.
pub open spec fn without_input(inputs: Seq<SafetyView>, key: Seq<char>) -> Seq<SafetyView> {
    match input_index(inputs, key) {
        Some(k) => inputs.remove(k),
        None => inputs,
    }
}

proof fn lemma_revalidated(inputs: Seq<SafetyView>, input: SafetyView)
    requires
        inputs_ok(inputs),
        input.ttl_seconds > 0,
        input.budget_initial >= 0,
        input.budget_remaining >= 0,
    ensures
        inputs_ok(revalidated(inputs, input)),
{
    lemma_input_index(inputs, input.key);
}

/// Law: recording a verification leaves the tables in the shape the schema
/// keeps.
pub proof fn revalidating_keeps_the_shape(
    t: TablesView,
    key: Seq<char>,
    now: i64,
    ttl_seconds: i64,
    budget: u64,
)
    requires
        tables_ok(t),
    ensures
        revalidate_outcome(t, key, now, ttl_seconds, budget) matches Ok(after) ==> tables_ok(after),
{
    if let Ok(after) = revalidate_outcome(t, key, now, ttl_seconds, budget) {
        lemma_revalidated(
            t.inputs,
            SafetyView {
                key,
                verified_at: now,
                ttl_seconds,
                budget_initial: budget as i64,
                budget_remaining: budget as i64,
            },
        );
    }
}

/// Law: a failed verification removes the input, and admission that requires
/// it is refused as missing.
pub proof fn an_invalidated_input_is_gone(inputs: Seq<SafetyView>, key: Seq<char>)
    requires
        inputs_ok(inputs),
    ensures
        inputs_ok(without_input(inputs, key)),
        input_index(without_input(inputs, key), key) is None,
{
    lemma_input_index(inputs, key);
    let after = without_input(inputs, key);
    lemma_input_index(after, key);
    if let Some(k) = input_index(inputs, key) {
        assert forall|i: int| 0 <= i < after.len() implies (#[trigger] after[i]) == inputs[if i < k {
            i
        } else {
            i + 1
        }] by {}
        if let Some(m) = input_index(after, key) {
            let j = if m < k {
                m
            } else {
                m + 1
            };
            assert(after[m] == inputs[j]);
            if j < k {
                assert(inputs[j].key != inputs[k].key);
            } else {
                assert(inputs[k].key != inputs[j].key);
            }
        }
        assert forall|i: int, j: int| 0 <= i < j < after.len() implies (#[trigger] after[i]).key
            != (#[trigger] after[j]).key by {
            let a = if i < k {
                i
            } else {
                i + 1
            };
            let b = if j < k {
                j
            } else {
                j + 1
            };
            assert(inputs[a].key != inputs[b].key);
        }
    }
}

// ---------------------------------------------------------------------------
// Latches.

/// The latches with every open one in a scope cleared.
pub open spec fn cleared(
    latches: Seq<LatchView>,
    scope: Seq<char>,
    cleared_by: Seq<char>,
    now: i64,
) -> Seq<LatchView> {
    Seq::new(
        latches.len(),
        |i: int|
            if latches[i].scope == scope && latches[i].cleared is None {
                LatchView { cleared: Some((now, cleared_by)), ..latches[i] }
            } else {
                latches[i]
            },
    )
}

/// How many of the first `n` latches in a scope are open.
pub open spec fn open_latches(latches: Seq<LatchView>, scope: Seq<char>, n: int) -> nat
    decreases n,
{
    if n <= 0 {
        0
    } else {
        open_latches(latches, scope, n - 1) + if latches[n - 1].scope == scope && latches[n
            - 1].cleared is None {
            1nat
        } else {
            0nat
        }
    }
}

/// Law: a latch only ever clears because someone cleared its scope. Clearing
/// leaves every latch of another scope as it was.
pub proof fn clearing_touches_only_its_scope(
    latches: Seq<LatchView>,
    scope: Seq<char>,
    cleared_by: Seq<char>,
    now: i64,
    i: int,
)
    requires
        0 <= i < latches.len(),
    ensures
        cleared(latches, scope, cleared_by, now)[i] != latches[i] ==> latches[i].scope == scope
            && latches[i].cleared is None,
{
}

// ---------------------------------------------------------------------------
// Reports.

/// A group that was sent and is not yet settled, seen at its first row.
pub open spec fn is_open_dispatch(row: RowView) -> bool {
    row.id == row.root_id && (row.state is DispatchedWithId || row.state is DispatchedIdUnknown)
}

/// Every open dispatch, in the order of their ids.
pub open spec fn open_dispatches_of(rows: Seq<RowView>) -> Seq<OpenDispatchView>
    decreases rows.len(),
{
    if rows.len() == 0 {
        Seq::empty()
    } else {
        let before = open_dispatches_of(rows.drop_last());
        let row = rows.last();
        if is_open_dispatch(row) {
            before.push(
                OpenDispatchView {
                    id: ReservationId(row.root_id),
                    state: row.state,
                    response_id: row.response_id,
                    created_at: row.created_at,
                },
            )
        } else {
            before
        }
    }
}

impl Ledger {
    pub fn trust(&self) -> (verdict: TrustVerdict)
        ensures
            verdict == self.trust,
    {
        self.trust
    }

    pub fn meta(&self) -> (result: Result<LedgerMeta, LedgerError>)
        ensures
            result == Ok::<LedgerMeta, LedgerError>(self.tables@.meta),
    {
        Ok(self.tables.meta)
    }

    pub fn current_epoch(&self) -> (result: Result<i64, LedgerError>)
        ensures
            result == Ok::<i64, LedgerError>(self.tables@.meta.current_epoch),
    {
        Ok(self.tables.meta.current_epoch)
    }

    pub fn counters(&self, pool_id: &str, epoch: i64) -> (result: Result<
        Option<PoolCounters>,
        LedgerError,
    >)
        ensures
            result == Ok::<Option<PoolCounters>, LedgerError>(
                match pool_index(self.tables@.pools, pool_id@, epoch) {
                    None => None,
                    Some(k) => Some(
                        PoolCounters {
                            granted: self.tables@.pools[k].granted,
                            consumed: self.tables@.pools[k].consumed,
                            reserved: self.tables@.pools[k].reserved,
                        },
                    ),
                },
            ),
    {
        match find_pool(&self.tables.pools, pool_id, epoch) {
            None => Ok(None),
            Some(k) => {
                let pool = &self.tables.pools[k];
                assert(self.tables@.pools[k as int] == pool@);
                Ok(
                    Some(
                        PoolCounters {
                            granted: pool.granted,
                            consumed: pool.consumed,
                            reserved: pool.reserved,
                        },
                    ),
                )
            },
        }
    }

    /// The state shared by every row of the reservation's group.
    pub fn reservation_state(&self, id: ReservationId) -> (result: Result<State, LedgerError>)
        ensures
            match group_of(self.tables@.rows, id.0) {
                Ok(head) => result == Ok::<State, LedgerError>(self.tables@.rows[head].state),
                Err(error) => result matches Err(e) && e@ == error,
            },
    {
        match load_group(&self.tables.rows, id.0) {
            Err(error) => Err(error),
            Ok(head) => {
                assert(self.tables@.rows[head as int] == self.tables.rows@[head as int]@);
                Ok(self.tables.rows[head].state)
            },
        }
    }

    /// Every reservation that was sent and is not yet settled, one per group.
    pub fn open_dispatches(&self) -> (result: Result<Vec<OpenDispatch>, LedgerError>)
        ensures
            result matches Ok(dispatches) && views(dispatches@) == open_dispatches_of(
                self.tables@.rows,
            ),
    {
        let ghost all = self.tables@.rows;
        let mut out: Vec<OpenDispatch> = Vec::new();
        let mut i: usize = 0;
        assert(all.take(0) =~= Seq::<RowView>::empty());
        assert(views(out@) =~= Seq::<OpenDispatchView>::empty());
        while i < self.tables.rows.len()
            invariant
                i <= self.tables.rows@.len(),
                all == self.tables@.rows,
                views(out@) == open_dispatches_of(all.take(i as int)),
            decreases self.tables.rows.len() - i,
        {
            let row = &self.tables.rows[i];
            let ghost so_far = views(out@);
            assert(all.take(i + 1).drop_last() =~= all.take(i as int));
            assert(all.take(i + 1).last() == row@);
            if row.id == row.root_id && (row.state == State::DispatchedWithId || row.state
                == State::DispatchedIdUnknown) {
                let dispatch = OpenDispatch {
                    id: ReservationId(row.root_id),
                    state: row.state,
                    response_id: copy_text(&row.response_id),
                    created_at: row.created_at,
                };
                let ghost added = dispatch@;
                out.push(dispatch);
                assert(views(out@) =~= so_far.push(added));
            }
            i = i + 1;
        }
        assert(all.take(i as int) =~= all);
        Ok(out)
    }

    /// Records a successful verification. Resets both the freshness window
    /// and the liability budget; nothing else restores the budget.
    pub fn revalidate_safety_input(
        &mut self,
        key: &str,
        now: i64,
        ttl_seconds: i64,
        budget: u64,
    ) -> (result: Result<(), LedgerError>)
        requires
            old(self).ok(),
        ensures
            final(self).ok(),
            final(self).trust == old(self).trust,
            committed(
                old(self).tables@,
                final(self).tables@,
                result,
                revalidate_outcome(old(self).tables@, key@, now, ttl_seconds, budget),
            ),
    {
        if budget > i64::MAX as u64 {
            return Err(LedgerError::Overflow);
        }
        if ttl_seconds <= 0 {
            return Err(LedgerError::ConstraintViolated);
        }
        let ghost before = self.tables@.inputs;
        let input = SafetyRow {
            key: key.to_owned(),
            verified_at: now,
            ttl_seconds,
            budget_initial: budget as i64,
            budget_remaining: budget as i64,
        };
        let ghost view = input@;
        proof {
            lemma_revalidated(before, view);
        }
        match find_input(&self.tables.inputs, key) {
            Some(k) => {
                self.tables.inputs.set(k, input);
            },
            None => {
                self.tables.inputs.push(input);
            },
        }
        assert(views(self.tables.inputs@) =~= revalidated(before, view));
        Ok(())
    }

    /// A failed verification removes the input, which refuses admission.
    pub fn invalidate_safety_input(&mut self, key: &str) -> (result: Result<(), LedgerError>)
        requires
            old(self).ok(),
        ensures
            final(self).ok(),
            final(self).trust == old(self).trust,
            result is Ok,
            final(self).tables@ == (TablesView {
                inputs: without_input(old(self).tables@.inputs, key@),
                ..old(self).tables@
            }),
    {
        let ghost before = self.tables@.inputs;
        proof {
            an_invalidated_input_is_gone(before, key@);
            lemma_input_index(before, key@);
        }
        match find_input(&self.tables.inputs, key) {
            Some(k) => {
                self.tables.inputs.remove(k);
            },
            None => {},
        }
        assert(views(self.tables.inputs@) =~= without_input(before, key@));
        Ok(())
    }

    /// Scopes: `global`, a pool id, or `model:<snapshot>`.
    pub fn set_latch(
        &mut self,
        scope: &str,
        reason: &str,
        evidence: Option<&str>,
        now: i64,
    ) -> (result: Result<(), LedgerError>)
        requires
            old(self).ok(),
        ensures
            final(self).ok(),
            final(self).trust == old(self).trust,
            result is Ok,
            final(self).tables@ == (TablesView {
                latches: old(self).tables@.latches.push(
                    LatchView {
                        scope: scope@,
                        reason: reason@,
                        evidence: str_view(evidence),
                        set_at: now,
                        cleared: None,
                    },
                ),
                ..old(self).tables@
            }),
    {
        let evidence_text: Option<String> = match evidence {
            Some(text) => Some(text.to_owned()),
            None => None,
        };
        self.insert_latch(scope.to_owned(), reason.to_owned(), evidence_text, now);
        Ok(())
    }

    /// Latches never clear on their own, including across a daily reset.
    /// Returns how many this call cleared.
    pub fn clear_latches(&mut self, scope: &str, cleared_by: &str, now: i64) -> (result: Result<
        usize,
        LedgerError,
    >)
        requires
            old(self).ok(),
        ensures
            final(self).ok(),
            final(self).trust == old(self).trust,
            result matches Ok(count) && count == open_latches(
                old(self).tables@.latches,
                scope@,
                old(self).tables@.latches.len() as int,
            ),
            final(self).tables@ == (TablesView {
                latches: cleared(old(self).tables@.latches, scope@, cleared_by@, now),
                ..old(self).tables@
            }),
    {
        let ghost before = self.tables@;
        let ghost after = cleared(before.latches, scope@, cleared_by@, now);
        let mut count: usize = 0;
        let mut i: usize = 0;
        while i < self.tables.latches.len()
            invariant
                i <= self.tables.latches@.len(),
                self.tables.latches@.len() == before.latches.len(),
                self.trust == old(self).trust,
                before == old(self).tables@,
                self.tables@ == (TablesView { latches: views(self.tables.latches@), ..before }),
                after == cleared(before.latches, scope@, cleared_by@, now),
                count <= i,
                count == open_latches(before.latches, scope@, i as int),
                forall|k: int| 0 <= k < i ==> (#[trigger] self.tables.latches@[k])@ == after[k],
                forall|k: int|
                    i <= k < before.latches.len() ==> (#[trigger] self.tables.latches@[k])@
                        == before.latches[k],
            decreases self.tables.latches.len() - i,
        {
            assert(self.tables.latches@[i as int]@ == before.latches[i as int]);
            if self.tables.latches[i].cleared.is_none() && str_eq(
                self.tables.latches[i].scope.as_str(),
                scope,
            ) {
                self.tables.latches[i].cleared = Some((now, cleared_by.to_owned()));
                count = count + 1;
            }
            assert(self.tables.latches@[i as int]@ == after[i as int]);
            i = i + 1;
        }
        assert(views(self.tables.latches@) =~= after);
        Ok(count)
    }
}

/// Law: a verification is recorded from now, for its time to live and with its
/// whole budget, whatever was recorded under its key before, and no other input
/// changes. It is recorded where the budget can be held and the time to live
/// is positive.
pub proof fn a_verification_starts_afresh(
    t: TablesView,
    key: Seq<char>,
    now: i64,
    ttl_seconds: i64,
    budget: u64,
    other: Seq<char>,
)
    requires
        tables_ok(t),
    ensures
        match revalidate_outcome(t, key, now, ttl_seconds, budget) {
            Ok(after) => {
                &&& budget <= i64::MAX && ttl_seconds >= 1
                &&& input_index(after.inputs, key) matches Some(k)
                &&& after.inputs[k].key == key
                &&& after.inputs[k].verified_at == now
                &&& after.inputs[k].ttl_seconds == ttl_seconds
                &&& after.inputs[k].budget_initial == budget
                &&& after.inputs[k].budget_remaining == budget
                &&& other != key ==> match input_index(t.inputs, other) {
                    Some(i) => input_index(after.inputs, other) matches Some(j) && after.inputs[j]
                        == t.inputs[i],
                    None => input_index(after.inputs, other) is None,
                }
                &&& after.pools == t.pools && after.rows == t.rows && after.meta == t.meta
                &&& after.latches == t.latches && after.counters == t.counters
                &&& after.dispatches == t.dispatches
            },
            Err(error) => (error is Overflow && budget > i64::MAX) || (error is ConstraintViolated
                && budget <= i64::MAX && ttl_seconds < 1),
        },
{
    if let Ok(after) = revalidate_outcome(t, key, now, ttl_seconds, budget) {
        lemma_input_index(t.inputs, key);
        lemma_input_index(t.inputs, other);
        lemma_input_index(after.inputs, key);
        lemma_input_index(after.inputs, other);
        revalidating_keeps_the_shape(t, key, now, ttl_seconds, budget);
        let k = match input_index(t.inputs, key) {
            Some(k) => k,
            None => t.inputs.len() as int,
        };
        assert(after.inputs[k].key == key);
        if let Some(j) = input_index(after.inputs, key) {
            if j < k {
                assert(after.inputs[j].key != after.inputs[k].key);
            } else if k < j {
                assert(after.inputs[k].key != after.inputs[j].key);
            }
        }
        if other != key {
            if let Some(i) = input_index(t.inputs, other) {
                assert(after.inputs[i] == t.inputs[i]);
                if let Some(j) = input_index(after.inputs, other) {
                    if j < i {
                        assert(after.inputs[j].key != after.inputs[i].key);
                    } else if i < j {
                        assert(after.inputs[i].key != after.inputs[j].key);
                    }
                }
            } else if let Some(j) = input_index(after.inputs, other) {
                if j < t.inputs.len() {
                    assert(t.inputs[j].key != other);
                }
            }
        }
    }
}

/// Law: clearing a scope clears every open latch of it, now and by whoever asks
/// for it, and keeps what the latch was set for.
pub proof fn clearing_clears_the_whole_scope(
    latches: Seq<LatchView>,
    scope: Seq<char>,
    cleared_by: Seq<char>,
    now: i64,
    i: int,
)
    requires
        0 <= i < latches.len(),
    ensures
        ({
            let after = cleared(latches, scope, cleared_by, now);
            &&& after.len() == latches.len()
            &&& after[i].scope == latches[i].scope
            &&& after[i].reason == latches[i].reason
            &&& after[i].evidence == latches[i].evidence
            &&& after[i].set_at == latches[i].set_at
            &&& latches[i].scope == scope && latches[i].cleared is None ==> after[i].cleared
                == Some((now, cleared_by))
            &&& latches[i].scope != scope || latches[i].cleared is Some ==> after[i].cleared
                == latches[i].cleared
            &&& open_latches(after, scope, latches.len() as int) == 0
        }),
{
    lemma_none_open(cleared(latches, scope, cleared_by, now), scope, latches.len() as int);
}

proof fn lemma_none_open(latches: Seq<LatchView>, scope: Seq<char>, n: int)
    requires
        n <= latches.len(),
        forall|i: int|
            0 <= i < latches.len() ==> !((#[trigger] latches[i]).scope == scope
                && latches[i].cleared is None),
    ensures
        open_latches(latches, scope, n) == 0,
    decreases n,
{
    if n > 0 {
        lemma_none_open(latches, scope, n - 1);
        assert(!(latches[n - 1].scope == scope && latches[n - 1].cleared is None));
    }
}

/// Law: the open dispatches are the groups that were sent and have not ended,
/// each once, in order, with the response id where it is known.
pub proof fn the_open_dispatches_are_those_sent(rows: Seq<RowView>, i: int)
    requires
        forall|a: int, b: int|
            0 <= a < b < rows.len() ==> (#[trigger] rows[a]).id < (#[trigger] rows[b]).id,
        0 <= i < rows.len(),
    ensures
        ({
            let open = open_dispatches_of(rows);
            &&& rows[i].id == rows[i].root_id && (rows[i].state == State::DispatchedWithId
                || rows[i].state == State::DispatchedIdUnknown) ==> exists|k: int|
                0 <= k < open.len() && (#[trigger] open[k]).id.0 == rows[i].id && open[k].state
                    == rows[i].state && open[k].response_id == rows[i].response_id
                    && open[k].created_at == rows[i].created_at
            &&& !(rows[i].id == rows[i].root_id && (rows[i].state == State::DispatchedWithId
                || rows[i].state == State::DispatchedIdUnknown)) ==> forall|k: int|
                0 <= k < open.len() ==> (#[trigger] open[k]).id.0 != rows[i].id
            &&& forall|a: int, b: int|
                0 <= a < b < open.len() ==> (#[trigger] open[a]).id.0 < (#[trigger] open[b]).id.0
        }),
    decreases rows.len(),
{
    lemma_open_ids(rows);
    let front = rows.drop_last();
    assert forall|a: int, b: int| 0 <= a < b < front.len() implies (#[trigger] front[a]).id < (
    #[trigger] front[b]).id by {
        assert(rows[a].id < rows[b].id);
    }
    lemma_open_ids(front);
    let open = open_dispatches_of(rows);
    let before = open_dispatches_of(front);
    assert forall|k: int| 0 <= k < before.len() implies before[k] == #[trigger] open[k] by {}
    let n = rows.len() - 1;
    if i < n {
        assert(front[i] == rows[i]);
        the_open_dispatches_are_those_sent(front, i);
        assert(rows[i].id < rows[n].id);
        if rows[i].id == rows[i].root_id && (rows[i].state == State::DispatchedWithId
            || rows[i].state == State::DispatchedIdUnknown) {
            let k = choose|k: int|
                0 <= k < before.len() && (#[trigger] before[k]).id.0 == front[i].id
                    && before[k].state == front[i].state && before[k].response_id
                    == front[i].response_id && before[k].created_at == front[i].created_at;
            assert(open[k] == before[k]);
        } else {
            assert forall|k: int| 0 <= k < open.len() implies (#[trigger] open[k]).id.0
                != rows[i].id by {
                if k < before.len() {
                    assert(before[k].id.0 != front[i].id);
                }
            }
        }
    } else {
        if is_open_dispatch(rows[n]) {
            assert(open[before.len() as int].id.0 == rows[n].id);
        } else {
            assert forall|k: int| 0 <= k < open.len() implies (#[trigger] open[k]).id.0
                != rows[n].id by {
                let j = choose|j: int|
                    0 <= j < front.len() && (#[trigger] front[j]).id == before[k].id.0;
                assert(rows[j].id < rows[n].id);
            }
        }
    }
}

/// The open dispatches stand in the order of their ids, and each is of a row.
proof fn lemma_open_ids(rows: Seq<RowView>)
    requires
        forall|a: int, b: int|
            0 <= a < b < rows.len() ==> (#[trigger] rows[a]).id < (#[trigger] rows[b]).id,
    ensures
        ({
            let open = open_dispatches_of(rows);
            &&& forall|k: int|
                0 <= k < open.len() ==> exists|j: int|
                    0 <= j < rows.len() && (#[trigger] rows[j]).id == (#[trigger] open[k]).id.0
            &&& forall|a: int, b: int|
                0 <= a < b < open.len() ==> (#[trigger] open[a]).id.0 < (#[trigger] open[b]).id.0
        }),
    decreases rows.len(),
{
    if rows.len() > 0 {
        let front = rows.drop_last();
        let n = rows.len() - 1;
        assert forall|a: int, b: int| 0 <= a < b < front.len() implies (#[trigger] front[a]).id < (
        #[trigger] front[b]).id by {
            assert(rows[a].id < rows[b].id);
        }
        lemma_open_ids(front);
        let open = open_dispatches_of(rows);
        let before = open_dispatches_of(front);
        assert forall|k: int| 0 <= k < open.len() implies exists|j: int|
            0 <= j < rows.len() && (#[trigger] rows[j]).id == (#[trigger] open[k]).id.0 by {
            if k < before.len() {
                let j = choose|j: int|
                    0 <= j < front.len() && (#[trigger] front[j]).id == before[k].id.0;
                assert(rows[j].id == open[k].id.0);
            } else {
                assert(rows[n].id == open[k].id.0);
            }
        }
        assert forall|a: int, b: int| 0 <= a < b < open.len() implies (#[trigger] open[a]).id.0 < (
        #[trigger] open[b]).id.0 by {
            if b < before.len() {
                assert(before[a].id.0 < before[b].id.0);
            } else {
                let j = choose|j: int|
                    0 <= j < front.len() && (#[trigger] front[j]).id == before[a].id.0;
                assert(rows[j].id < rows[n].id);
            }
        }
    }
}

} // verus!
