//! The ledger's tables: their rows, what the schema promises of them, and the
//! sums the pool counters must agree with.
use vstd::prelude::*;
use vstd::string::*;

use crate::state::{active, maybe_sent, State};
use crate::text::str_eq;
use crate::trust::LedgerMeta;

verus! {

/// One pool's counters for one day.
#[derive(Debug, PartialEq, Eq)]
pub struct PoolRow {
    pub pool_id: String,
    pub epoch: i64,
    pub granted: i64,
    pub consumed: i64,
    pub reserved: i64,
}

pub struct PoolView {
    pub pool_id: Seq<char>,
    pub epoch: i64,
    pub granted: i64,
    pub consumed: i64,
    pub reserved: i64,
}

/// One reservation in one epoch. Rows sharing a `root_id` are one group.
#[derive(Debug, PartialEq, Eq)]
pub struct ReservationRow {
    pub id: i64,
    pub root_id: i64,
    pub pool_id: String,
    pub epoch: i64,
    pub state: State,
    pub liability: i64,
    pub settled: Option<i64>,
    pub response_id: Option<String>,
    pub request_digest: String,
    pub model_snapshot: String,
    pub service_tier: String,
    pub accounting_rev: i64,
    pub created_at: i64,
}

pub struct RowView {
    pub id: i64,
    pub root_id: i64,
    pub pool_id: Seq<char>,
    pub epoch: i64,
    pub state: State,
    pub liability: i64,
    pub settled: Option<i64>,
    pub response_id: Option<Seq<char>>,
    pub request_digest: Seq<char>,
    pub model_snapshot: Seq<char>,
    pub service_tier: Seq<char>,
    pub accounting_rev: i64,
    pub created_at: i64,
}

/// A verified premise of admission, with its freshness and liability budget.
#[derive(Debug, PartialEq, Eq)]
pub struct SafetyRow {
    pub key: String,
    pub verified_at: i64,
    pub ttl_seconds: i64,
    pub budget_initial: i64,
    pub budget_remaining: i64,
}

pub struct SafetyView {
    pub key: Seq<char>,
    pub verified_at: i64,
    pub ttl_seconds: i64,
    pub budget_initial: i64,
    pub budget_remaining: i64,
}

/// A latch refuses admission in its scope until someone clears it.
#[derive(Debug, PartialEq, Eq)]
pub struct LatchRow {
    pub scope: String,
    pub reason: String,
    pub evidence: Option<String>,
    pub set_at: i64,
    /// When and by whom the latch was cleared.
    pub cleared: Option<(i64, String)>,
}

pub struct LatchView {
    pub scope: Seq<char>,
    pub reason: Seq<char>,
    pub evidence: Option<Seq<char>>,
    pub set_at: i64,
    pub cleared: Option<(i64, Seq<char>)>,
}

/// How many of a provider's requests were spent in an epoch.
#[derive(Debug, PartialEq, Eq)]
pub struct CounterRow {
    pub provider: String,
    pub epoch: i64,
    pub limit_per_day: i64,
    pub used: i64,
}

pub struct CounterView {
    pub provider: Seq<char>,
    pub epoch: i64,
    pub limit_per_day: i64,
    pub used: i64,
}

/// A request that was sent, for the short sliding window.
#[derive(Debug, PartialEq, Eq)]
pub struct DispatchRow {
    pub provider: String,
    pub at: i64,
}

pub struct DispatchView {
    pub provider: Seq<char>,
    pub at: i64,
}

/// Everything the ledger stores.
#[derive(Debug, PartialEq, Eq)]
pub struct Tables {
    pub pools: Vec<PoolRow>,
    /// In the order of their ids.
    pub rows: Vec<ReservationRow>,
    pub meta: LedgerMeta,
    pub inputs: Vec<SafetyRow>,
    /// In the order they were set.
    pub latches: Vec<LatchRow>,
    pub counters: Vec<CounterRow>,
    pub dispatches: Vec<DispatchRow>,
}

pub struct TablesView {
    pub pools: Seq<PoolView>,
    pub rows: Seq<RowView>,
    pub meta: LedgerMeta,
    pub inputs: Seq<SafetyView>,
    pub latches: Seq<LatchView>,
    pub counters: Seq<CounterView>,
    pub dispatches: Seq<DispatchView>,
}

/// The views of a sequence of values.
pub open spec fn views<T: View>(items: Seq<T>) -> Seq<T::V> {
    Seq::new(items.len(), |i: int| items[i]@)
}

/// The view of an optional string.
pub open spec fn text_view(text: Option<String>) -> Option<Seq<char>> {
    match text {
        Some(s) => Some(s@),
        None => None,
    }
}

impl View for PoolRow {
    type V = PoolView;

    open spec fn view(&self) -> PoolView {
        PoolView {
            pool_id: self.pool_id@,
            epoch: self.epoch,
            granted: self.granted,
            consumed: self.consumed,
            reserved: self.reserved,
        }
    }
}

impl View for ReservationRow {
    type V = RowView;

    open spec fn view(&self) -> RowView {
        RowView {
            id: self.id,
            root_id: self.root_id,
            pool_id: self.pool_id@,
            epoch: self.epoch,
            state: self.state,
            liability: self.liability,
            settled: self.settled,
            response_id: text_view(self.response_id),
            request_digest: self.request_digest@,
            model_snapshot: self.model_snapshot@,
            service_tier: self.service_tier@,
            accounting_rev: self.accounting_rev,
            created_at: self.created_at,
        }
    }
}

impl View for SafetyRow {
    type V = SafetyView;

    open spec fn view(&self) -> SafetyView {
        SafetyView {
            key: self.key@,
            verified_at: self.verified_at,
            ttl_seconds: self.ttl_seconds,
            budget_initial: self.budget_initial,
            budget_remaining: self.budget_remaining,
        }
    }
}

impl View for LatchRow {
    type V = LatchView;

    open spec fn view(&self) -> LatchView {
        LatchView {
            scope: self.scope@,
            reason: self.reason@,
            evidence: text_view(self.evidence),
            set_at: self.set_at,
            cleared: match self.cleared {
                Some((at, by)) => Some((at, by@)),
                None => None,
            },
        }
    }
}

impl View for CounterRow {
    type V = CounterView;

    open spec fn view(&self) -> CounterView {
        CounterView {
            provider: self.provider@,
            epoch: self.epoch,
            limit_per_day: self.limit_per_day,
            used: self.used,
        }
    }
}

impl View for DispatchRow {
    type V = DispatchView;

    open spec fn view(&self) -> DispatchView {
        DispatchView { provider: self.provider@, at: self.at }
    }
}

impl View for Tables {
    type V = TablesView;

    open spec fn view(&self) -> TablesView {
        TablesView {
            pools: views(self.pools@),
            rows: views(self.rows@),
            meta: self.meta,
            inputs: views(self.inputs@),
            latches: views(self.latches@),
            counters: views(self.counters@),
            dispatches: views(self.dispatches@),
        }
    }
}

// ---------------------------------------------------------------------------
// What the schema promises.

pub open spec fn same_pool(a: PoolView, b: PoolView) -> bool {
    a.pool_id == b.pool_id && a.epoch == b.epoch
}

/// A pool day that has been opened: one row per pool and epoch, none of it
/// ahead of the current epoch, no counter negative.
pub open spec fn pools_ok(pools: Seq<PoolView>, current_epoch: i64) -> bool {
    &&& forall|i: int|
        0 <= i < pools.len() ==> {
            &&& (#[trigger] pools[i]).granted >= 0
            &&& pools[i].consumed >= 0
            &&& pools[i].reserved >= 0
            &&& pools[i].epoch <= current_epoch
        }
    &&& forall|i: int, j: int|
        0 <= i < j < pools.len() ==> !same_pool(#[trigger] pools[i], #[trigger] pools[j])
}

/// A settled amount exists exactly when the row is settled. The response id is
/// known in `DispatchedWithId`, may survive into the terminal states it leads
/// to, and cannot exist before dispatch. A group is named by the id of its
/// first row.
pub open spec fn row_ok(row: RowView, current_epoch: i64) -> bool {
    &&& row.root_id <= row.id
    &&& row.liability >= 0
    &&& row.epoch <= current_epoch
    &&& (row.state is Settled) == (row.settled is Some)
    &&& row.settled matches Some(amount) ==> amount >= 0
    &&& match row.state {
        State::DispatchedWithId => row.response_id is Some,
        State::Settled | State::ConsumedUnrecoverable => true,
        _ => row.response_id is None,
    }
}

pub open spec fn has_pool(pools: Seq<PoolView>, pool_id: Seq<char>, epoch: i64) -> bool {
    exists|k: int|
        0 <= k < pools.len() && (#[trigger] pools[k]).pool_id == pool_id && pools[k].epoch == epoch
}

/// Rows stand in the order of their ids, those of one group in the order of
/// their epochs, and each refers to an opened pool day.
pub open spec fn rows_ok(rows: Seq<RowView>, pools: Seq<PoolView>, current_epoch: i64) -> bool {
    &&& forall|i: int|
        0 <= i < rows.len() ==> {
            &&& row_ok(#[trigger] rows[i], current_epoch)
            &&& has_pool(pools, rows[i].pool_id, rows[i].epoch)
        }
    &&& forall|i: int, j: int|
        0 <= i < j < rows.len() ==> (#[trigger] rows[i]).id < (#[trigger] rows[j]).id
    &&& forall|i: int, j: int|
        0 <= i < j < rows.len() && rows[i].root_id == rows[j].root_id ==> (
        #[trigger] rows[i]).epoch < (#[trigger] rows[j]).epoch
}

/// The group has a first row, whose id names it.
pub open spec fn has_root(rows: Seq<RowView>, root_id: i64) -> bool {
    exists|k: int|
        0 <= k < rows.len() && (#[trigger] rows[k]).id == root_id && rows[k].root_id == root_id
}

pub open spec fn rooted(rows: Seq<RowView>) -> bool {
    forall|i: int| 0 <= i < rows.len() ==> has_root(rows, (#[trigger] rows[i]).root_id)
}

/// Groups keep their first rows while ids and roots stay and rows are added.
pub proof fn lemma_rooted_extends(before: Seq<RowView>, after: Seq<RowView>)
    requires
        rooted(before),
        before.len() <= after.len(),
        forall|i: int|
            0 <= i < before.len() ==> (#[trigger] after[i]).id == before[i].id && after[i].root_id
                == before[i].root_id,
        forall|i: int|
            before.len() <= i < after.len() ==> (#[trigger] after[i]).root_id == after[i].id
                || has_root(before, after[i].root_id),
    ensures
        rooted(after),
{
    assert forall|root: i64| has_root(before, root) implies has_root(after, root) by {
        let k = choose|k: int|
            0 <= k < before.len() && (#[trigger] before[k]).id == root && before[k].root_id == root;
        assert(after[k].id == root && after[k].root_id == root);
    }
    assert forall|i: int| 0 <= i < after.len() implies has_root(
        after,
        (#[trigger] after[i]).root_id,
    ) by {
        if i < before.len() {
            assert(has_root(before, before[i].root_id));
        }
    }
}

pub open spec fn inputs_ok(inputs: Seq<SafetyView>) -> bool {
    &&& forall|i: int|
        0 <= i < inputs.len() ==> {
            &&& (#[trigger] inputs[i]).ttl_seconds > 0
            &&& inputs[i].budget_initial >= 0
            &&& inputs[i].budget_remaining >= 0
        }
    &&& forall|i: int, j: int|
        0 <= i < j < inputs.len() ==> (#[trigger] inputs[i]).key != (#[trigger] inputs[j]).key
}

pub open spec fn counters_ok(counters: Seq<CounterView>) -> bool {
    &&& forall|i: int| 0 <= i < counters.len() ==> (#[trigger] counters[i]).used >= 0
    &&& forall|i: int, j: int|
        0 <= i < j < counters.len() ==> !((#[trigger] counters[i]).provider == (
        #[trigger] counters[j]).provider && counters[i].epoch == counters[j].epoch)
}

/// The shape the schema keeps the tables in.
pub open spec fn tables_ok(t: TablesView) -> bool {
    &&& pools_ok(t.pools, t.meta.current_epoch)
    &&& rows_ok(t.rows, t.pools, t.meta.current_epoch)
    &&& rooted(t.rows)
    &&& t.meta.generation >= 0
    &&& t.meta.cumulative_liability >= 0
    &&& inputs_ok(t.inputs)
    &&& counters_ok(t.counters)
}

// ---------------------------------------------------------------------------
// Sums over the reservation rows.

/// The sum of `f` over the rows.
pub open spec fn total(rows: Seq<RowView>, f: spec_fn(RowView) -> int) -> int
    decreases rows.len(),
{
    if rows.len() == 0 {
        0
    } else {
        total(rows.drop_last(), f) + f(rows.last())
    }
}

/// What a row keeps reserved in a pool day: its liability while it is active.
pub open spec fn held_by(row: RowView, pool_id: Seq<char>, epoch: i64) -> int {
    if row.pool_id == pool_id && row.epoch == epoch && active(row.state) {
        row.liability as int
    } else {
        0
    }
}

/// What a row has consumed in a pool day: the settled usage, or the whole
/// liability once it was written off.
pub open spec fn spent_by(row: RowView, pool_id: Seq<char>, epoch: i64) -> int {
    if row.pool_id == pool_id && row.epoch == epoch {
        match row.state {
            State::Settled => row.settled->0 as int,
            State::ConsumedUnrecoverable => row.liability as int,
            _ => 0,
        }
    } else {
        0
    }
}

/// How much more than its liability a row was settled at, in a pool day.
pub open spec fn overrun_by(row: RowView, pool_id: Seq<char>, epoch: i64) -> int {
    if row.pool_id == pool_id && row.epoch == epoch && row.state is Settled && row.settled->0
        > row.liability {
        row.settled->0 - row.liability
    } else {
        0
    }
}

pub open spec fn held_term(pool_id: Seq<char>, epoch: i64) -> spec_fn(RowView) -> int {
    |row: RowView| held_by(row, pool_id, epoch)
}

pub open spec fn spent_term(pool_id: Seq<char>, epoch: i64) -> spec_fn(RowView) -> int {
    |row: RowView| spent_by(row, pool_id, epoch)
}

pub open spec fn overrun_term(pool_id: Seq<char>, epoch: i64) -> spec_fn(RowView) -> int {
    |row: RowView| overrun_by(row, pool_id, epoch)
}

/// The liabilities that may still reach upstream in a pool day.
pub open spec fn held(rows: Seq<RowView>, pool_id: Seq<char>, epoch: i64) -> int {
    total(rows, held_term(pool_id, epoch))
}

/// The consumption the rows account for in a pool day.
pub open spec fn spent(rows: Seq<RowView>, pool_id: Seq<char>, epoch: i64) -> int {
    total(rows, spent_term(pool_id, epoch))
}

/// What the provider reported beyond the liabilities in a pool day.
pub open spec fn overrun(rows: Seq<RowView>, pool_id: Seq<char>, epoch: i64) -> int {
    total(rows, overrun_term(pool_id, epoch))
}

/// Every group agrees on its state and liability.
pub open spec fn groups_agree(rows: Seq<RowView>) -> bool {
    forall|i: int, j: int|
        0 <= i < rows.len() && 0 <= j < rows.len() && (#[trigger] rows[i]).root_id == (
        #[trigger] rows[j]).root_id ==> rows[i].state == rows[j].state && rows[i].liability
            == rows[j].liability
}

/// Each stored `reserved` is the sum of the liabilities it summarises.
pub open spec fn books_balance(pools: Seq<PoolView>, rows: Seq<RowView>) -> bool {
    forall|i: int|
        0 <= i < pools.len() ==> (#[trigger] pools[i]).reserved == held(
            rows,
            pools[i].pool_id,
            pools[i].epoch,
        )
}

/// Each stored `consumed` covers what its rows are known to have consumed.
pub open spec fn spending_covered(pools: Seq<PoolView>, rows: Seq<RowView>) -> bool {
    forall|i: int|
        0 <= i < pools.len() ==> spent(rows, (#[trigger] pools[i]).pool_id, pools[i].epoch)
            <= pools[i].consumed
}

/// Each stored `consumed` is exactly what its rows have consumed.
pub open spec fn tallied(pools: Seq<PoolView>, rows: Seq<RowView>) -> bool {
    forall|i: int|
        0 <= i < pools.len() ==> (#[trigger] pools[i]).consumed == spent(
            rows,
            pools[i].pool_id,
            pools[i].epoch,
        )
}

/// The property whose violation costs money, over the stored counters: in
/// every pool day the grant covers what is reserved, and what is consumed and
/// reserved together goes beyond it by no more than the provider reported
/// beyond the liabilities.
pub open spec fn within_grants(pools: Seq<PoolView>, rows: Seq<RowView>) -> bool {
    forall|i: int|
        0 <= i < pools.len() ==> (#[trigger] pools[i]).reserved <= pools[i].granted
            && pools[i].consumed + pools[i].reserved <= pools[i].granted + overrun(
            rows,
            pools[i].pool_id,
            pools[i].epoch,
        )
}

/// The same pool days, with the same grants.
pub open spec fn same_grants(before: Seq<PoolView>, after: Seq<PoolView>) -> bool {
    before.len() == after.len() && forall|i: int|
        0 <= i < before.len() ==> {
            &&& (#[trigger] after[i]).pool_id == before[i].pool_id
            &&& after[i].epoch == before[i].epoch
            &&& after[i].granted == before[i].granted
        }
}

/// The books are in order.
pub open spec fn sound(t: TablesView) -> bool {
    &&& groups_agree(t.rows)
    &&& books_balance(t.pools, t.rows)
    &&& spending_covered(t.pools, t.rows)
}

/// The property whose violation costs money, over the requests themselves:
/// for every pool and epoch, settled consumption plus the maximum possible
/// consumption of every request that may have reached upstream fits the grant,
/// but for what the provider reported beyond the liabilities.
pub open spec fn never_exceeds_the_grant(t: TablesView) -> bool {
    forall|i: int|
        0 <= i < t.pools.len() ==> spent(t.rows, (#[trigger] t.pools[i]).pool_id, t.pools[i].epoch)
            + held(t.rows, t.pools[i].pool_id, t.pools[i].epoch) <= t.pools[i].granted + overrun(
            t.rows,
            t.pools[i].pool_id,
            t.pools[i].epoch,
        )
}

/// A group that may have reached upstream and has not ended, seen at its first
/// row.
pub open spec fn is_in_flight(row: RowView) -> bool {
    row.id == row.root_id && maybe_sent(row.state)
}

pub open spec fn flight_term() -> spec_fn(RowView) -> int {
    |row: RowView|
        if is_in_flight(row) {
            1int
        } else {
            0int
        }
}

/// How many groups may have reached upstream and have not ended.
pub open spec fn in_flight(rows: Seq<RowView>) -> int {
    total(rows, flight_term())
}

/// A sum splits into two where each of its terms does.
pub proof fn lemma_total_splits(
    a: Seq<RowView>,
    f: spec_fn(RowView) -> int,
    b: Seq<RowView>,
    g: spec_fn(RowView) -> int,
    c: Seq<RowView>,
    h: spec_fn(RowView) -> int,
)
    requires
        a.len() == b.len() == c.len(),
        forall|i: int| 0 <= i < a.len() ==> f(#[trigger] a[i]) == g(b[i]) + h(c[i]),
    ensures
        total(a, f) == total(b, g) + total(c, h),
    decreases a.len(),
{
    if a.len() > 0 {
        let i = a.len() - 1;
        assert(f(a[i]) == g(b[i]) + h(c[i]));
        assert forall|k: int| 0 <= k < a.drop_last().len() implies f(#[trigger] a.drop_last()[k])
            == g(b.drop_last()[k]) + h(c.drop_last()[k]) by {
            assert(f(a[k]) == g(b[k]) + h(c[k]));
        }
        lemma_total_splits(a.drop_last(), f, b.drop_last(), g, c.drop_last(), h);
    }
}

/// A sum of zeros is zero.
pub proof fn lemma_total_zero(rows: Seq<RowView>, f: spec_fn(RowView) -> int)
    requires
        forall|i: int| 0 <= i < rows.len() ==> f(#[trigger] rows[i]) == 0,
    ensures
        total(rows, f) == 0,
    decreases rows.len(),
{
    if rows.len() > 0 {
        assert(f(rows[rows.len() - 1]) == 0);
        assert forall|k: int| 0 <= k < rows.drop_last().len() implies f(
            #[trigger] rows.drop_last()[k],
        ) == 0 by {
            assert(f(rows[k]) == 0);
        }
        lemma_total_zero(rows.drop_last(), f);
    }
}

/// Rows with the same terms have the same sum.
pub proof fn lemma_total_same(
    a: Seq<RowView>,
    b: Seq<RowView>,
    f: spec_fn(RowView) -> int,
)
    requires
        a.len() == b.len(),
        forall|i: int| 0 <= i < a.len() ==> f(#[trigger] a[i]) == f(b[i]),
    ensures
        total(a, f) == total(b, f),
{
    let none = |row: RowView| 0int;
    lemma_total_zero(b, none);
    lemma_total_splits(a, f, b, f, b, none);
}

/// A sum of smaller terms is smaller.
pub proof fn lemma_total_bounded(
    a: Seq<RowView>,
    f: spec_fn(RowView) -> int,
    b: Seq<RowView>,
    g: spec_fn(RowView) -> int,
)
    requires
        a.len() == b.len(),
        forall|i: int| 0 <= i < a.len() ==> f(#[trigger] a[i]) <= g(b[i]),
    ensures
        total(a, f) <= total(b, g),
    decreases a.len(),
{
    if a.len() > 0 {
        assert(f(a[a.len() - 1]) <= g(b[a.len() - 1]));
        assert forall|k: int| 0 <= k < a.drop_last().len() implies f(#[trigger] a.drop_last()[k])
            <= g(b.drop_last()[k]) by {
            assert(f(a[k]) <= g(b[k]));
        }
        lemma_total_bounded(a.drop_last(), f, b.drop_last(), g);
    }
}

/// A sum is that of its beginning where the rest does not count.
pub proof fn lemma_total_prefix(rows: Seq<RowView>, n: int, f: spec_fn(RowView) -> int)
    requires
        0 <= n <= rows.len(),
        forall|i: int| n <= i < rows.len() ==> f(#[trigger] rows[i]) == 0,
    ensures
        total(rows, f) == total(rows.take(n), f),
    decreases rows.len(),
{
    if n == rows.len() {
        assert(rows.take(n) =~= rows);
    } else {
        assert(f(rows[rows.len() - 1]) == 0);
        assert forall|k: int| n <= k < rows.drop_last().len() implies f(
            #[trigger] rows.drop_last()[k],
        ) == 0 by {
            assert(f(rows[k]) == 0);
        }
        lemma_total_prefix(rows.drop_last(), n, f);
        assert(rows.drop_last().take(n) =~= rows.take(n));
    }
}

/// A sum with one term that counts is that term.
pub proof fn lemma_one_term(rows: Seq<RowView>, f: spec_fn(RowView) -> int, j: int)
    requires
        0 <= j < rows.len(),
        forall|i: int| 0 <= i < rows.len() && i != j ==> f(#[trigger] rows[i]) == 0,
    ensures
        total(rows, f) == f(rows[j]),
    decreases rows.len(),
{
    if j == rows.len() - 1 {
        lemma_total_zero(rows.drop_last(), f);
    } else {
        lemma_one_term(rows.drop_last(), f, j);
    }
}

/// An overrun is never negative.
pub proof fn lemma_overrun_is_not_negative(rows: Seq<RowView>, pool_id: Seq<char>, epoch: i64)
    ensures
        overrun(rows, pool_id, epoch) >= 0,
{
    let none = |row: RowView| 0int;
    lemma_total_zero(rows, none);
    lemma_total_le(rows, none, overrun_term(pool_id, epoch));
}

/// A sum grows by the term of an appended row.
pub proof fn lemma_total_push(rows: Seq<RowView>, row: RowView, f: spec_fn(RowView) -> int)
    ensures
        total(rows.push(row), f) == total(rows, f) + f(row),
{
    assert(rows.push(row).drop_last() =~= rows);
}

/// A sum of larger terms is larger.
pub proof fn lemma_total_le(
    rows: Seq<RowView>,
    f: spec_fn(RowView) -> int,
    g: spec_fn(RowView) -> int,
)
    requires
        forall|i: int| 0 <= i < rows.len() ==> f(#[trigger] rows[i]) <= g(rows[i]),
    ensures
        total(rows, f) <= total(rows, g),
{
    lemma_total_bounded(rows, f, rows, g);
}

/// A sum of terms that are not negative is at least the sum of its beginning.
pub proof fn lemma_total_take(rows: Seq<RowView>, n: int, f: spec_fn(RowView) -> int)
    requires
        0 <= n <= rows.len(),
        forall|i: int| 0 <= i < rows.len() ==> f(#[trigger] rows[i]) >= 0,
    ensures
        0 <= total(rows.take(n), f) <= total(rows, f),
    decreases rows.len(),
{
    if rows.len() > 0 {
        assert(f(rows[rows.len() - 1]) >= 0);
        assert forall|k: int| 0 <= k < rows.drop_last().len() implies f(
            #[trigger] rows.drop_last()[k],
        ) >= 0 by {
            assert(f(rows[k]) >= 0);
        }
        if n == rows.len() {
            assert(rows.take(n) =~= rows);
            lemma_total_take(rows.drop_last(), n - 1, f);
        } else {
            assert(rows.take(n) =~= rows.drop_last().take(n));
            lemma_total_take(rows.drop_last(), n, f);
        }
    } else {
        assert(rows.take(n) =~= rows);
    }
}

// ---------------------------------------------------------------------------
// Copies.

/// A copy of an optional string.
pub fn copy_text(text: &Option<String>) -> (out: Option<String>)
    ensures
        text_view(out) == text_view(*text),
{
    match text {
        Some(s) => Some(s.clone()),
        None => None,
    }
}

impl PoolRow {
    pub fn copy(&self) -> (out: PoolRow)
        ensures
            out@ == self@,
    {
        PoolRow {
            pool_id: self.pool_id.clone(),
            epoch: self.epoch,
            granted: self.granted,
            consumed: self.consumed,
            reserved: self.reserved,
        }
    }
}

impl ReservationRow {
    pub fn copy(&self) -> (out: ReservationRow)
        ensures
            out@ == self@,
    {
        ReservationRow {
            id: self.id,
            root_id: self.root_id,
            pool_id: self.pool_id.clone(),
            epoch: self.epoch,
            state: self.state,
            liability: self.liability,
            settled: self.settled,
            response_id: copy_text(&self.response_id),
            request_digest: self.request_digest.clone(),
            model_snapshot: self.model_snapshot.clone(),
            service_tier: self.service_tier.clone(),
            accounting_rev: self.accounting_rev,
            created_at: self.created_at,
        }
    }
}

/// A copy of the pool table.
pub fn copy_pools(pools: &Vec<PoolRow>) -> (out: Vec<PoolRow>)
    ensures
        views(out@) == views(pools@),
{
    let mut out: Vec<PoolRow> = Vec::new();
    let mut i: usize = 0;
    while i < pools.len()
        invariant
            i <= pools.len(),
            out@.len() == i,
            forall|k: int| 0 <= k < i ==> (#[trigger] out@[k])@ == pools@[k]@,
        decreases pools.len() - i,
    {
        out.push(pools[i].copy());
        i = i + 1;
    }
    assert(views(out@) =~= views(pools@));
    out
}

/// A copy of the reservation table.
pub fn copy_rows(rows: &Vec<ReservationRow>) -> (out: Vec<ReservationRow>)
    ensures
        views(out@) == views(rows@),
{
    let mut out: Vec<ReservationRow> = Vec::new();
    let mut i: usize = 0;
    while i < rows.len()
        invariant
            i <= rows.len(),
            out@.len() == i,
            forall|k: int| 0 <= k < i ==> (#[trigger] out@[k])@ == rows@[k]@,
        decreases rows.len() - i,
    {
        out.push(rows[i].copy());
        i = i + 1;
    }
    assert(views(out@) =~= views(rows@));
    out
}

// ---------------------------------------------------------------------------
// Lookups.

/// How many groups may have reached upstream and have not ended.
pub fn count_in_flight(rows: &Vec<ReservationRow>) -> (count: usize)
    ensures
        count == in_flight(views(rows@)),
{
    let ghost all = views(rows@);
    let mut count: usize = 0;
    let mut i: usize = 0;
    assert(all.take(0) =~= Seq::empty());
    while i < rows.len()
        invariant
            i <= rows@.len(),
            all == views(rows@),
            count <= i,
            count == in_flight(all.take(i as int)),
        decreases rows.len() - i,
    {
        let row = &rows[i];
        assert(all.take(i + 1).drop_last() =~= all.take(i as int));
        assert(all.take(i + 1).last() == row@);
        if row.id == row.root_id && row.state.possibly_sent() {
            count = count + 1;
        }
        i = i + 1;
    }
    assert(all.take(i as int) =~= all);
    count
}

/// The position of the pool's row for an epoch.
pub open spec fn pool_index(pools: Seq<PoolView>, pool_id: Seq<char>, epoch: i64) -> Option<int>
    decreases pools.len(),
{
    if pools.len() == 0 {
        None
    } else if pools.last().pool_id == pool_id && pools.last().epoch == epoch {
        Some(pools.len() - 1)
    } else {
        pool_index(pools.drop_last(), pool_id, epoch)
    }
}

pub proof fn lemma_pool_index(pools: Seq<PoolView>, pool_id: Seq<char>, epoch: i64)
    ensures
        match pool_index(pools, pool_id, epoch) {
            Some(k) => 0 <= k < pools.len() && pools[k].pool_id == pool_id && pools[k].epoch
                == epoch && has_pool(pools, pool_id, epoch),
            None => !has_pool(pools, pool_id, epoch),
        },
    decreases pools.len(),
{
    if pools.len() > 0 {
        lemma_pool_index(pools.drop_last(), pool_id, epoch);
        match pool_index(pools.drop_last(), pool_id, epoch) {
            Some(k) => {
                assert(pools[k] == pools.drop_last()[k]);
            },
            None => {
                assert forall|k: int| 0 <= k < pools.len() - 1 implies !((
                #[trigger] pools[k]).pool_id == pool_id && pools[k].epoch == epoch) by {
                    assert(pools[k] == pools.drop_last()[k]);
                }
            },
        }
    }
}

/// Finds the pool's row for an epoch.
pub fn find_pool(pools: &Vec<PoolRow>, pool_id: &str, epoch: i64) -> (found: Option<usize>)
    ensures
        match found {
            Some(k) => k < pools@.len() && pool_index(views(pools@), pool_id@, epoch) == Some(
                k as int,
            ),
            None => pool_index(views(pools@), pool_id@, epoch) is None,
        },
{
    let mut i: usize = pools.len();
    assert(views(pools@).take(i as int) =~= views(pools@));
    while i > 0
        invariant
            i <= pools@.len(),
            pool_index(views(pools@).take(i as int), pool_id@, epoch) == pool_index(
                views(pools@),
                pool_id@,
                epoch,
            ),
        decreases i,
    {
        assert(views(pools@).take(i as int).last() == pools@[i - 1]@);
        if pools[i - 1].epoch == epoch && str_eq(pools[i - 1].pool_id.as_str(), pool_id) {
            return Some(i - 1);
        }
        assert(views(pools@).take(i as int).drop_last() =~= views(pools@).take(i - 1));
        i = i - 1;
    }
    None
}

// ---------------------------------------------------------------------------
// Laws.

/// Law: a group is in flight once, at its first row, from when it is being sent
/// until it has ended.
pub proof fn a_group_in_flight_is_counted_once(rows: Seq<RowView>, row: RowView)
    ensures
        in_flight(Seq::empty()) == 0,
        in_flight(rows.push(row)) == in_flight(rows) + if row.id == row.root_id && (
        row.state is Dispatching || row.state is DispatchedWithId
            || row.state is DispatchedIdUnknown) {
            1int
        } else {
            0int
        },
{
    assert(rows.push(row).drop_last() =~= rows);
    assert(rows.push(row).last() == row);
}

/// Law: a row counts in the day of its pool alone. It holds its liability from
/// when it is reserved until it has ended; then it has consumed what it was
/// settled at, its whole liability where it was written off, and nothing where
/// it was released or rejected.
pub proof fn a_row_counts_in_its_own_day(
    rows: Seq<RowView>,
    row: RowView,
    pool_id: Seq<char>,
    epoch: i64,
)
    ensures
        held(Seq::empty(), pool_id, epoch) == 0,
        spent(Seq::empty(), pool_id, epoch) == 0,
        ({
            let held_more = held(rows.push(row), pool_id, epoch) - held(rows, pool_id, epoch);
            let spent_more = spent(rows.push(row), pool_id, epoch) - spent(rows, pool_id, epoch);
            if row.pool_id != pool_id || row.epoch != epoch {
                held_more == 0 && spent_more == 0
            } else {
                match row.state {
                    State::Reserved
                    | State::Dispatching
                    | State::DispatchedWithId
                    | State::DispatchedIdUnknown => held_more == row.liability && spent_more == 0,
                    State::Settled => held_more == 0 && (row.settled matches Some(actual)
                        ==> spent_more == actual),
                    State::ConsumedUnrecoverable => held_more == 0 && spent_more == row.liability,
                    State::ReleasedUnsent | State::RejectedBeforeProcessing => held_more == 0
                        && spent_more == 0,
                }
            }
        }),
{
    assert(rows.push(row).drop_last() =~= rows);
    assert(rows.push(row).last() == row);
}

} // verus!
