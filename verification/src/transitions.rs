//! State transitions. Each applies to a whole reservation group at once and
//! states exactly what it does to the counters. A transition that fails leaves
//! every table as it was.
use vstd::prelude::*;
use vstd::string::*;

use crate::error::{plain, ErrorView, LedgerError};
use crate::hwm::HighWaterMark;
use crate::ledger::{Ledger, ReservationId};
use crate::state::{active, allowed, target_of, State, Transition};
use crate::tables::{
    copy_pools, find_pool, has_pool, lemma_pool_index, lemma_rooted_extends, pool_index, pools_ok,
    row_ok, rows_ok, same_pool, tables_ok, text_view, total, views, LatchRow, LatchView, PoolRow,
    PoolView, ReservationRow, RowView, TablesView,
};
use crate::text::{decimal_text, push_decimal, push_signed, signed_text, str_eq, str_view};
use crate::trust::LedgerMeta;

verus! {

#[derive(Debug, Clone, Copy, PartialEq, Eq, Structural)]
pub struct Usage {
    pub input_tokens: i64,
    pub output_tokens: i64,
}

/// What the provider reported for a finished response.
#[derive(Debug, PartialEq, Eq)]
pub struct CompletedResponse {
    /// `None` when the response carried no usable usage object.
    pub usage: Option<Usage>,
    pub model: String,
    pub service_tier: String,
}

#[derive(Debug, Clone, Copy, PartialEq, Eq, Structural)]
pub enum UsageDefect {
    Missing,
    Negative,
    Overflow,
    ModelMismatch,
    ServiceTierMismatch,
    AccountingRevisionMismatch,
}

#[derive(Debug, Clone, Copy, PartialEq, Eq, Structural)]
pub enum Settlement {
    Settled { actual: i64, overrun: bool },
    /// The usage could not be trusted: the full liability was consumed and
    /// the pool latched at once.
    WrittenOff(UsageDefect),
}

// ---------------------------------------------------------------------------
// Groups.

/// The position of a row by its id.
pub open spec fn row_index(rows: Seq<RowView>, id: i64) -> Option<int>
    decreases rows.len(),
{
    if rows.len() == 0 {
        None
    } else if rows.last().id == id {
        Some(rows.len() - 1)
    } else {
        row_index(rows.drop_last(), id)
    }
}

pub proof fn lemma_row_index(rows: Seq<RowView>, id: i64)
    ensures
        match row_index(rows, id) {
            Some(k) => 0 <= k < rows.len() && rows[k].id == id,
            None => forall|k: int| 0 <= k < rows.len() ==> (#[trigger] rows[k]).id != id,
        },
    decreases rows.len(),
{
    if rows.len() > 0 {
        lemma_row_index(rows.drop_last(), id);
        if row_index(rows, id) is None {
            assert forall|k: int| 0 <= k < rows.len() implies (#[trigger] rows[k]).id != id by {
                if k < rows.len() - 1 {
                    assert(rows[k] == rows.drop_last()[k]);
                }
            }
        }
    }
}

pub fn find_row(rows: &Vec<ReservationRow>, id: i64) -> (found: Option<usize>)
    ensures
        match found {
            Some(k) => k < rows@.len() && row_index(views(rows@), id) == Some(k as int),
            None => row_index(views(rows@), id) is None,
        },
{
    let mut i: usize = rows.len();
    assert(views(rows@).take(i as int) =~= views(rows@));
    while i > 0
        invariant
            i <= rows@.len(),
            row_index(views(rows@).take(i as int), id) == row_index(views(rows@), id),
        decreases i,
    {
        assert(views(rows@).take(i as int).last() == rows@[i - 1]@);
        if rows[i - 1].id == id {
            return Some(i - 1);
        }
        assert(views(rows@).take(i as int).drop_last() =~= views(rows@).take(i - 1));
        i = i - 1;
    }
    None
}

/// The position of a group's first row, the one in its oldest epoch, among
/// `rows[from..]`.
pub open spec fn head_index(rows: Seq<RowView>, root_id: i64, from: int) -> int
    decreases rows.len() - from,
{
    if from >= rows.len() || rows[from].root_id == root_id {
        from
    } else {
        head_index(rows, root_id, from + 1)
    }
}

pub proof fn lemma_head_index(rows: Seq<RowView>, root_id: i64, from: int, k: int)
    requires
        0 <= from <= k < rows.len(),
        rows[k].root_id == root_id,
    ensures
        from <= head_index(rows, root_id, from) <= k,
        rows[head_index(rows, root_id, from)].root_id == root_id,
    decreases k - from,
{
    if rows[from].root_id != root_id {
        lemma_head_index(rows, root_id, from + 1, k);
    }
}

/// Some row of the group differs from its first row.
pub open spec fn group_disagrees(rows: Seq<RowView>, head: int) -> bool {
    exists|i: int|
        0 <= i < rows.len() && (#[trigger] rows[i]).root_id == rows[head].root_id && (
        rows[i].state != rows[head].state || rows[i].liability != rows[head].liability)
}

pub open spec fn disagree_text(root_id: i64) -> Seq<char> {
    "reservation group "@ + signed_text(root_id as int) + " has rows that disagree"@
}

/// The position of the first row of the group that holds `id`.
pub open spec fn group_of(rows: Seq<RowView>, id: i64) -> Result<int, ErrorView> {
    match row_index(rows, id) {
        None => Err(ErrorView::NotFound(id)),
        Some(k) => {
            let head = head_index(rows, rows[k].root_id, 0);
            if group_disagrees(rows, head) {
                Err(ErrorView::Integrity(disagree_text(rows[k].root_id)))
            } else {
                Ok(head)
            }
        },
    }
}

/// Finds the group that holds `id`: the position of its first row.
pub fn load_group(rows: &Vec<ReservationRow>, id: i64) -> (result: Result<usize, LedgerError>)
    ensures
        match group_of(views(rows@), id) {
            Ok(head) => result matches Ok(h) && h == head && h < rows@.len() && exists|k: int|
                0 <= k < rows@.len() && (#[trigger] rows@[k]).id == id && rows@[k].root_id
                    == rows@[head].root_id,
            Err(error) => result matches Err(e) && e@ == error,
        },
{
    let ghost all = views(rows@);
    proof {
        lemma_row_index(all, id);
    }
    let k = match find_row(rows, id) {
        None => return Err(LedgerError::NotFound(id)),
        Some(k) => k,
    };
    let root: i64 = rows[k].root_id;
    assert(all[k as int] == rows@[k as int]@);
    proof {
        lemma_head_index(all, root, 0, k as int);
    }
    let mut head: usize = 0;
    while rows[head].root_id != root
        invariant
            head <= k < rows@.len(),
            all == views(rows@),
            rows@[k as int].root_id == root,
            head_index(all, root, head as int) == head_index(all, root, 0),
        decreases k - head,
    {
        assert(all[head as int] == rows@[head as int]@);
        head = head + 1;
    }
    assert(all[head as int] == rows@[head as int]@);
    let mut i: usize = 0;
    while i < rows.len()
        invariant
            i <= rows@.len(),
            head <= k < rows@.len(),
            all == views(rows@),
            row_index(all, id) == Some(k as int),
            rows@[k as int].root_id == root,
            head_index(all, root, 0) == head,
            rows@[head as int].root_id == root,
            forall|j: int|
                0 <= j < i && (#[trigger] rows@[j]).root_id == root ==> rows@[j].state
                    == rows@[head as int].state && rows@[j].liability
                    == rows@[head as int].liability,
        decreases rows.len() - i,
    {
        if rows[i].root_id == root && (rows[i].state != rows[head].state || rows[i].liability
            != rows[head].liability) {
            assert(all[i as int] == rows@[i as int]@ && all[head as int] == rows@[head as int]@);
            assert(group_disagrees(all, head as int));
            let mut text = String::from_str("reservation group ");
            push_signed(&mut text, root);
            text.push_str(" has rows that disagree");
            return Err(LedgerError::Integrity(text));
        }
        i = i + 1;
    }
    assert(!group_disagrees(all, head as int));
    Ok(head)
}

// ---------------------------------------------------------------------------
// Counters.

pub open spec fn no_row_text(pool_id: Seq<char>, epoch: i64) -> Seq<char> {
    "pool "@ + pool_id + " has no row for epoch "@ + signed_text(epoch as int)
}

pub open spec fn negative_text(pool_id: Seq<char>, epoch: i64) -> Seq<char> {
    "pool "@ + pool_id + " epoch "@ + signed_text(epoch as int) + " counters would go negative"@
}

pub open spec fn fits(n: int) -> bool {
    i64::MIN <= n <= i64::MAX
}

/// The pools with counter deltas applied to one of them. A counter that would
/// go negative means the books are already wrong, and is never clamped.
pub open spec fn adjusted(
    pools: Seq<PoolView>,
    pool_id: Seq<char>,
    epoch: i64,
    reserved_delta: int,
    consumed_delta: int,
) -> Result<Seq<PoolView>, ErrorView> {
    match pool_index(pools, pool_id, epoch) {
        None => Err(ErrorView::Integrity(no_row_text(pool_id, epoch))),
        Some(k) => {
            let reserved = pools[k].reserved + reserved_delta;
            let consumed = pools[k].consumed + consumed_delta;
            if !fits(reserved) || !fits(consumed) {
                Err(ErrorView::Overflow)
            } else if reserved < 0 || consumed < 0 {
                Err(ErrorView::Integrity(negative_text(pool_id, epoch)))
            } else {
                Ok(
                    pools.update(
                        k,
                        PoolView {
                            reserved: reserved as i64,
                            consumed: consumed as i64,
                            ..pools[k]
                        },
                    ),
                )
            }
        },
    }
}

/// Applies counter deltas with checked arithmetic.
pub fn adjust_pool(
    pools: &mut Vec<PoolRow>,
    pool_id: &str,
    epoch: i64,
    reserved_delta: i64,
    consumed_delta: i64,
) -> (result: Result<(), LedgerError>)
    ensures
        match adjusted(
            views(old(pools)@),
            pool_id@,
            epoch,
            reserved_delta as int,
            consumed_delta as int,
        ) {
            Ok(after) => result is Ok && views(final(pools)@) == after,
            Err(error) => result matches Err(e) && e@ == error && *final(pools) == *old(pools),
        },
{
    let k = match find_pool(pools, pool_id, epoch) {
        None => {
            let mut text = String::from_str("pool ");
            text.push_str(pool_id);
            text.push_str(" has no row for epoch ");
            push_signed(&mut text, epoch);
            return Err(LedgerError::Integrity(text));
        },
        Some(k) => k,
    };
    assert(views(pools@)[k as int] == pools@[k as int]@);
    let reserved: i64 = match pools[k].reserved.checked_add(reserved_delta) {
        None => return Err(LedgerError::Overflow),
        Some(reserved) => reserved,
    };
    let consumed: i64 = match pools[k].consumed.checked_add(consumed_delta) {
        None => return Err(LedgerError::Overflow),
        Some(consumed) => consumed,
    };
    if reserved < 0 || consumed < 0 {
        let mut text = String::from_str("pool ");
        text.push_str(pool_id);
        text.push_str(" epoch ");
        push_signed(&mut text, epoch);
        text.push_str(" counters would go negative");
        return Err(LedgerError::Integrity(text));
    }
    let ghost before = views(pools@);
    pools[k].reserved = reserved;
    pools[k].consumed = consumed;
    assert(views(pools@) =~= before.update(
        k as int,
        PoolView { reserved, consumed, ..before[k as int] },
    ));
    Ok(())
}

/// The pools once each row of a group has given up its reservation and
/// consumed `consumed` in its own epoch.
pub open spec fn closed_pools(
    pools: Seq<PoolView>,
    rows: Seq<RowView>,
    root_id: i64,
    consumed: i64,
) -> Result<Seq<PoolView>, ErrorView>
    decreases rows.len(),
{
    if rows.len() == 0 {
        Ok(pools)
    } else {
        match closed_pools(pools, rows.drop_last(), root_id, consumed) {
            Err(error) => Err(error),
            Ok(so_far) => if rows.last().root_id == root_id {
                adjusted(
                    so_far,
                    rows.last().pool_id,
                    rows.last().epoch,
                    -rows.last().liability,
                    consumed as int,
                )
            } else {
                Ok(so_far)
            },
        }
    }
}

/// The rows with a group's state and settled amount replaced.
pub open spec fn relabelled(
    rows: Seq<RowView>,
    root_id: i64,
    state: State,
    settled: Option<i64>,
) -> Seq<RowView> {
    Seq::new(
        rows.len(),
        |i: int|
            if rows[i].root_id == root_id {
                RowView { state, settled, ..rows[i] }
            } else {
                rows[i]
            },
    )
}

/// The tables once a group has reached a terminal state.
pub open spec fn closed_group(
    t: TablesView,
    root_id: i64,
    state: State,
    consumed: i64,
    settled: Option<i64>,
) -> Result<TablesView, ErrorView> {
    match closed_pools(t.pools, t.rows, root_id, consumed) {
        Err(error) => Err(error),
        Ok(pools) => Ok(
            TablesView { pools, rows: relabelled(t.rows, root_id, state, settled), ..t },
        ),
    }
}

/// The group a transition applies to, or why it may not.
pub open spec fn transition_group(
    t: TablesView,
    id: ReservationId,
    transition: Transition,
) -> Result<int, ErrorView> {
    match group_of(t.rows, id.0) {
        Err(error) => Err(error),
        Ok(head) => if allowed(transition, t.rows[head].state) {
            Ok(head)
        } else {
            Err(
                ErrorView::IllegalTransition {
                    root_id: t.rows[head].root_id,
                    from: t.rows[head].state,
                    to: target_of(transition),
                },
            )
        },
    }
}

/// A transition that ends a group, consuming nothing or all of its liability.
pub open spec fn ending_outcome(
    t: TablesView,
    id: ReservationId,
    transition: Transition,
) -> Result<TablesView, ErrorView> {
    match transition_group(t, id, transition) {
        Err(error) => Err(error),
        Ok(head) => closed_group(
            t,
            t.rows[head].root_id,
            target_of(transition),
            if transition == Transition::Unrecoverable {
                t.rows[head].liability
            } else {
                0
            },
            None,
        ),
    }
}

/// What a transition leaves behind: the new tables, or the old ones and why.
pub open spec fn committed(
    before: TablesView,
    after: TablesView,
    result: Result<(), LedgerError>,
    outcome: Result<TablesView, ErrorView>,
) -> bool {
    match outcome {
        Ok(tables) => result is Ok && after == tables,
        Err(error) => result matches Err(e) && e@ == error && after == before,
    }
}

fn ensure_allowed(root_id: i64, from: State, transition: Transition) -> (result: Result<
    (),
    LedgerError,
>)
    ensures
        match result {
            Ok(_) => allowed(transition, from),
            Err(error) => !allowed(transition, from) && error@ == (ErrorView::IllegalTransition {
                root_id,
                from,
                to: target_of(transition),
            }),
        },
{
    if transition.allowed_from(from) {
        Ok(())
    } else {
        Err(LedgerError::IllegalTransition { root_id, from, to: transition.target() })
    }
}

fn relabel_rows(
    rows: &mut Vec<ReservationRow>,
    root_id: i64,
    state: State,
    settled: Option<i64>,
)
    ensures
        views(final(rows)@) == relabelled(views(old(rows)@), root_id, state, settled),
{
    let ghost before = views(rows@);
    let ghost after = relabelled(before, root_id, state, settled);
    let mut i: usize = 0;
    while i < rows.len()
        invariant
            i <= rows@.len(),
            rows@.len() == before.len(),
            after == relabelled(before, root_id, state, settled),
            forall|j: int| 0 <= j < i ==> (#[trigger] rows@[j])@ == after[j],
            forall|j: int| i <= j < before.len() ==> (#[trigger] rows@[j])@ == before[j],
        decreases rows.len() - i,
    {
        assert(rows@[i as int]@ == before[i as int]);
        if rows[i].root_id == root_id {
            rows[i].state = state;
            rows[i].settled = settled;
        }
        assert(rows@[i as int]@ == after[i as int]);
        i = i + 1;
    }
    assert(views(rows@) =~= after);
}

impl Ledger {
    /// Removes each row's liability from `reserved` and adds
    /// `consumed_per_row` to `consumed` in that row's epoch, then relabels the
    /// group.
    fn finish(
        &mut self,
        root_id: i64,
        target: State,
        consumed_per_row: i64,
        settled: Option<i64>,
    ) -> (result: Result<(), LedgerError>)
        requires
            old(self).ok(),
        ensures
            final(self).trust == old(self).trust,
            committed(
                old(self).tables@,
                final(self).tables@,
                result,
                closed_group(old(self).tables@, root_id, target, consumed_per_row, settled),
            ),
    {
        let ghost before = self.tables@;
        let mut pools = copy_pools(&self.tables.pools);
        let mut i: usize = 0;
        assert(before.rows.take(0) =~= Seq::<RowView>::empty());
        while i < self.tables.rows.len()
            invariant
                i <= self.tables.rows@.len(),
                self.tables@ == before,
                self.trust == old(self).trust,
                before == old(self).tables@,
                tables_ok(before),
                closed_pools(
                    before.pools,
                    before.rows.take(i as int),
                    root_id,
                    consumed_per_row,
                ) == Ok::<Seq<PoolView>, ErrorView>(views(pools@)),
            decreases self.tables.rows.len() - i,
        {
            let row = &self.tables.rows[i];
            assert(before.rows[i as int] == row@);
            assert(row_ok(before.rows[i as int], before.meta.current_epoch));
            assert(before.rows.take(i + 1).drop_last() =~= before.rows.take(i as int));
            assert(before.rows.take(i + 1).last() == row@);
            if row.root_id == root_id {
                let released: i64 = -row.liability;
                match adjust_pool(
                    &mut pools,
                    row.pool_id.as_str(),
                    row.epoch,
                    released,
                    consumed_per_row,
                ) {
                    Ok(()) => {},
                    Err(error) => {
                        proof {
                            lemma_closed_pools_fails(
                                before.pools,
                                before.rows,
                                i + 1,
                                root_id,
                                consumed_per_row,
                            );
                        }
                        return Err(error);
                    },
                }
            }
            i = i + 1;
        }
        assert(before.rows.take(i as int) =~= before.rows);
        self.tables.pools = pools;
        relabel_rows(&mut self.tables.rows, root_id, target, settled);
        Ok(())
    }

    /// Ends a group by a transition that needs no usage.
    fn end_group(&mut self, id: ReservationId, transition: Transition) -> (result: Result<
        (),
        LedgerError,
    >)
        requires
            old(self).ok(),
            transition == Transition::Unrecoverable || transition == Transition::ReleaseUnsent
                || transition == Transition::RejectBeforeProcessing,
        ensures
            final(self).ok(),
            final(self).trust == old(self).trust,
            committed(
                old(self).tables@,
                final(self).tables@,
                result,
                ending_outcome(old(self).tables@, id, transition),
            ),
    {
        proof {
            ending_keeps_the_shape(self.tables@, id, transition);
        }
        let head = match load_group(&self.tables.rows, id.0) {
            Err(error) => return Err(error),
            Ok(head) => head,
        };
        let root_id: i64 = self.tables.rows[head].root_id;
        let state = self.tables.rows[head].state;
        assert(self.tables@.rows[head as int] == self.tables.rows@[head as int]@);
        match ensure_allowed(root_id, state, transition) {
            Err(error) => return Err(error),
            Ok(()) => {},
        }
        let consumed: i64 = if transition == Transition::Unrecoverable {
            self.tables.rows[head].liability
        } else {
            0
        };
        self.finish(root_id, transition.target(), consumed, None)
    }

    /// Gives up on recovering authoritative usage: the full liability becomes
    /// consumption.
    pub fn write_off(&mut self, id: ReservationId) -> (result: Result<(), LedgerError>)
        requires
            old(self).ok(),
        ensures
            final(self).ok(),
            final(self).trust == old(self).trust,
            committed(
                old(self).tables@,
                final(self).tables@,
                result,
                ending_outcome(old(self).tables@, id, Transition::Unrecoverable),
            ),
    {
        self.end_group(id, Transition::Unrecoverable)
    }

    /// Only for a request proven never to have reached the HTTP stack.
    /// Safety-input budgets are not refunded.
    pub fn release_unsent(&mut self, id: ReservationId) -> (result: Result<(), LedgerError>)
        requires
            old(self).ok(),
        ensures
            final(self).ok(),
            final(self).trust == old(self).trust,
            committed(
                old(self).tables@,
                final(self).tables@,
                result,
                ending_outcome(old(self).tables@, id, Transition::ReleaseUnsent),
            ),
    {
        self.end_group(id, Transition::ReleaseUnsent)
    }

    /// Only for a synchronous refusal of the create request itself, with a
    /// status proving that processing never started: 400, 401, 402, 403, 404,
    /// 422 or 429. The request did reach upstream, so this is not
    /// `release_unsent`, but no response exists that could consume anything.
    /// Safety-input budgets are not refunded.
    pub fn release_rejected(&mut self, id: ReservationId) -> (result: Result<(), LedgerError>)
        requires
            old(self).ok(),
        ensures
            final(self).ok(),
            final(self).trust == old(self).trust,
            committed(
                old(self).tables@,
                final(self).tables@,
                result,
                ending_outcome(old(self).tables@, id, Transition::RejectBeforeProcessing),
            ),
    {
        self.end_group(id, Transition::RejectBeforeProcessing)
    }
}

proof fn lemma_closed_pools_fails(
    pools: Seq<PoolView>,
    rows: Seq<RowView>,
    n: int,
    root_id: i64,
    consumed: i64,
)
    requires
        0 <= n <= rows.len(),
        closed_pools(pools, rows.take(n), root_id, consumed) is Err,
    ensures
        closed_pools(pools, rows, root_id, consumed) == closed_pools(
            pools,
            rows.take(n),
            root_id,
            consumed,
        ),
    decreases rows.len() - n,
{
    if n < rows.len() {
        assert(rows.take(n + 1).drop_last() =~= rows.take(n));
        lemma_closed_pools_fails(pools, rows, n + 1, root_id, consumed);
    } else {
        assert(rows.take(n) =~= rows);
    }
}

/// What a row of the group contributes to a pool day.
pub open spec fn group_term(
    root_id: i64,
    pool_id: Seq<char>,
    epoch: i64,
    amount: spec_fn(RowView) -> int,
) -> spec_fn(RowView) -> int {
    |row: RowView|
        if row.root_id == root_id && row.pool_id == pool_id && row.epoch == epoch {
            amount(row)
        } else {
            0
        }
}

pub open spec fn liability_amount() -> spec_fn(RowView) -> int {
    |row: RowView| row.liability as int
}

pub open spec fn constant_amount(n: i64) -> spec_fn(RowView) -> int {
    |row: RowView| n as int
}

/// Closing a group moves, in every pool day, exactly the group's liabilities
/// there out of `reserved` and the consumption of its rows there into
/// `consumed`.
pub proof fn lemma_closed_pools(
    pools: Seq<PoolView>,
    rows: Seq<RowView>,
    root_id: i64,
    consumed: i64,
    current_epoch: i64,
)
    requires
        pools_ok(pools, current_epoch),
        closed_pools(pools, rows, root_id, consumed) is Ok,
    ensures
        ({
            let after = closed_pools(pools, rows, root_id, consumed)->Ok_0;
            &&& pools_ok(after, current_epoch)
            &&& after.len() == pools.len()
            &&& forall|i: int|
                0 <= i < pools.len() ==> {
                    &&& (#[trigger] after[i]).pool_id == pools[i].pool_id
                    &&& after[i].epoch == pools[i].epoch
                    &&& after[i].granted == pools[i].granted
                    &&& after[i].reserved == pools[i].reserved - total(
                        rows,
                        group_term(root_id, pools[i].pool_id, pools[i].epoch, liability_amount()),
                    )
                    &&& after[i].consumed == pools[i].consumed + total(
                        rows,
                        group_term(
                            root_id,
                            pools[i].pool_id,
                            pools[i].epoch,
                            constant_amount(consumed),
                        ),
                    )
                }
        }),
    decreases rows.len(),
{
    if rows.len() > 0 {
        lemma_closed_pools(pools, rows.drop_last(), root_id, consumed, current_epoch);
        let so_far = closed_pools(pools, rows.drop_last(), root_id, consumed)->Ok_0;
        let after = closed_pools(pools, rows, root_id, consumed)->Ok_0;
        let row = rows.last();
        if row.root_id == root_id {
            lemma_pool_index(so_far, row.pool_id, row.epoch);
            let k = pool_index(so_far, row.pool_id, row.epoch)->0;
            assert forall|i: int| 0 <= i < pools.len() implies {
                &&& (#[trigger] after[i]).pool_id == pools[i].pool_id
                &&& after[i].epoch == pools[i].epoch
                &&& after[i].granted == pools[i].granted
                &&& after[i].reserved >= 0
                &&& after[i].consumed >= 0
                &&& after[i].reserved == pools[i].reserved - total(
                    rows,
                    group_term(root_id, pools[i].pool_id, pools[i].epoch, liability_amount()),
                )
                &&& after[i].consumed == pools[i].consumed + total(
                    rows,
                    group_term(
                        root_id,
                        pools[i].pool_id,
                        pools[i].epoch,
                        constant_amount(consumed),
                    ),
                )
            } by {
                if i < k {
                    assert(!same_pool(so_far[i], so_far[k]));
                } else if k < i {
                    assert(!same_pool(so_far[k], so_far[i]));
                }
            }
            assert forall|i: int, j: int| 0 <= i < j < after.len() implies !same_pool(
                #[trigger] after[i],
                #[trigger] after[j],
            ) by {
                assert(!same_pool(so_far[i], so_far[j]));
            }
        }
    }
}

/// A terminal state's fields match the schema.
pub open spec fn ending_ok(target: State, settled: Option<i64>) -> bool {
    &&& !active(target)
    &&& (target is Settled) == (settled is Some)
    &&& settled matches Some(amount) ==> amount >= 0
}

/// Where the response id of every row of a group may stay as it is.
pub open spec fn response_ids_fit(rows: Seq<RowView>, root_id: i64, target: State) -> bool {
    target is Settled || target is ConsumedUnrecoverable || forall|i: int|
        0 <= i < rows.len() && (#[trigger] rows[i]).root_id == root_id ==> rows[i].response_id
            is None
}

pub proof fn lemma_closing_keeps_the_shape(
    t: TablesView,
    root_id: i64,
    target: State,
    consumed: i64,
    settled: Option<i64>,
)
    requires
        tables_ok(t),
        ending_ok(target, settled),
        response_ids_fit(t.rows, root_id, target),
        closed_group(t, root_id, target, consumed, settled) is Ok,
    ensures
        tables_ok(closed_group(t, root_id, target, consumed, settled)->Ok_0),
{
    let after = closed_group(t, root_id, target, consumed, settled)->Ok_0;
    let epoch = t.meta.current_epoch;
    lemma_closed_pools(t.pools, t.rows, root_id, consumed, epoch);
    assert forall|i: int| 0 <= i < after.rows.len() implies row_ok(#[trigger] after.rows[i], epoch)
        && has_pool(after.pools, after.rows[i].pool_id, after.rows[i].epoch) by {
        assert(row_ok(t.rows[i], epoch));
        assert(has_pool(t.pools, t.rows[i].pool_id, t.rows[i].epoch));
        let k = choose|k: int|
            0 <= k < t.pools.len() && (#[trigger] t.pools[k]).pool_id == t.rows[i].pool_id
                && t.pools[k].epoch == t.rows[i].epoch;
        assert(after.pools[k].pool_id == after.rows[i].pool_id && after.pools[k].epoch
            == after.rows[i].epoch);
    }
    assert(rows_ok(after.rows, after.pools, epoch));
    lemma_rooted_extends(t.rows, after.rows);
}

/// Law: ending a group leaves the tables in the shape the schema keeps.
pub proof fn ending_keeps_the_shape(t: TablesView, id: ReservationId, transition: Transition)
    requires
        tables_ok(t),
        transition == Transition::Unrecoverable || transition == Transition::ReleaseUnsent
            || transition == Transition::RejectBeforeProcessing,
    ensures
        ending_outcome(t, id, transition) matches Ok(after) ==> tables_ok(after),
{
    if let Ok(after) = ending_outcome(t, id, transition) {
        let head = transition_group(t, id, transition)->Ok_0;
        lemma_group_head(t.rows, id.0);
        let row = t.rows[head];
        if transition != Transition::Unrecoverable {
            assert forall|i: int|
                0 <= i < t.rows.len() && (#[trigger] t.rows[i]).root_id
                    == row.root_id implies t.rows[i].response_id is None by {
                assert(row_ok(t.rows[i], t.meta.current_epoch));
                assert(t.rows[i].state == row.state);
            }
        }
        let consumed = if transition == Transition::Unrecoverable {
            row.liability
        } else {
            0
        };
        lemma_closing_keeps_the_shape(t, row.root_id, target_of(transition), consumed, None);
    }
}

pub proof fn lemma_group_head(rows: Seq<RowView>, id: i64)
    ensures
        group_of(rows, id) matches Ok(head) ==> {
            &&& 0 <= head < rows.len()
            &&& forall|i: int|
                0 <= i < rows.len() && (#[trigger] rows[i]).root_id == rows[head].root_id
                    ==> rows[i].state == rows[head].state && rows[i].liability
                    == rows[head].liability
        },
{
    lemma_row_index(rows, id);
    if let Some(k) = row_index(rows, id) {
        lemma_head_index(rows, rows[k].root_id, 0, k);
    }
}

// ---------------------------------------------------------------------------
// Settlement.

pub struct ResponseView {
    pub usage: Option<Usage>,
    pub model: Seq<char>,
    pub service_tier: Seq<char>,
}

impl View for CompletedResponse {
    type V = ResponseView;

    open spec fn view(&self) -> ResponseView {
        ResponseView {
            usage: self.usage,
            model: self.model@,
            service_tier: self.service_tier@,
        }
    }
}

/// The consumption a response reports, where it can be trusted. Output tokens
/// already include reasoning tokens, and cached tokens are a breakdown of
/// input tokens, not an addition.
pub open spec fn reported_usage(
    head: RowView,
    response: ResponseView,
    accounting_rev: i64,
) -> Result<i64, UsageDefect> {
    match response.usage {
        None => Err(UsageDefect::Missing),
        Some(usage) => if usage.input_tokens < 0 || usage.output_tokens < 0 {
            Err(UsageDefect::Negative)
        } else if response.model != head.model_snapshot {
            Err(UsageDefect::ModelMismatch)
        } else if response.service_tier != head.service_tier {
            Err(UsageDefect::ServiceTierMismatch)
        } else if accounting_rev != head.accounting_rev {
            Err(UsageDefect::AccountingRevisionMismatch)
        } else if usage.input_tokens + usage.output_tokens > i64::MAX {
            Err(UsageDefect::Overflow)
        } else {
            Ok((usage.input_tokens + usage.output_tokens) as i64)
        },
    }
}

fn validate(head: &ReservationRow, response: &CompletedResponse, accounting_rev: i64) -> (result:
    Result<i64, UsageDefect>)
    ensures
        result == reported_usage(head@, response@, accounting_rev),
{
    let usage = match response.usage {
        None => return Err(UsageDefect::Missing),
        Some(usage) => usage,
    };
    if usage.input_tokens < 0 || usage.output_tokens < 0 {
        return Err(UsageDefect::Negative);
    }
    if !str_eq(response.model.as_str(), head.model_snapshot.as_str()) {
        return Err(UsageDefect::ModelMismatch);
    }
    if !str_eq(response.service_tier.as_str(), head.service_tier.as_str()) {
        return Err(UsageDefect::ServiceTierMismatch);
    }
    if accounting_rev != head.accounting_rev {
        return Err(UsageDefect::AccountingRevisionMismatch);
    }
    match usage.input_tokens.checked_add(usage.output_tokens) {
        None => Err(UsageDefect::Overflow),
        Some(actual) => Ok(actual),
    }
}

pub open spec fn defect_name(defect: UsageDefect) -> Seq<char> {
    match defect {
        UsageDefect::Missing => "Missing"@,
        UsageDefect::Negative => "Negative"@,
        UsageDefect::Overflow => "Overflow"@,
        UsageDefect::ModelMismatch => "ModelMismatch"@,
        UsageDefect::ServiceTierMismatch => "ServiceTierMismatch"@,
        UsageDefect::AccountingRevisionMismatch => "AccountingRevisionMismatch"@,
    }
}

fn defect_text(defect: UsageDefect) -> (name: &'static str)
    ensures
        name@ == defect_name(defect),
{
    match defect {
        UsageDefect::Missing => "Missing",
        UsageDefect::Negative => "Negative",
        UsageDefect::Overflow => "Overflow",
        UsageDefect::ModelMismatch => "ModelMismatch",
        UsageDefect::ServiceTierMismatch => "ServiceTierMismatch",
        UsageDefect::AccountingRevisionMismatch => "AccountingRevisionMismatch",
    }
}

/// The latch on a pool whose usage could not be trusted.
pub open spec fn defect_latch(head: RowView, defect: UsageDefect, now: i64) -> LatchView {
    LatchView {
        scope: head.pool_id,
        reason: "invalid usage: "@ + defect_name(defect),
        evidence: Some("reservation "@ + signed_text(head.root_id as int)),
        set_at: now,
        cleared: None,
    }
}

/// The latch on a model that consumed more than its liability.
pub open spec fn overrun_latch(head: RowView, actual: i64, now: i64) -> LatchView {
    LatchView {
        scope: "model:"@ + head.model_snapshot,
        reason: "reported usage exceeded the reserved liability"@,
        evidence: Some(
            "reservation "@ + signed_text(head.root_id as int) + ": actual "@ + signed_text(
                actual as int,
            ) + " > liability "@ + signed_text(head.liability as int),
        ),
        set_at: now,
        cleared: None,
    }
}

/// Settling against authoritative usage: the settlement and the tables after
/// it. Usage that fails validation never releases liability: the group is
/// written off in full and its pool latched. Usage above the liability is
/// recorded as reported, not clamped, and latches the model.
pub open spec fn settle_outcome(
    t: TablesView,
    id: ReservationId,
    response: ResponseView,
    accounting_rev: i64,
    now: i64,
) -> Result<(Settlement, TablesView), ErrorView> {
    match transition_group(t, id, Transition::Settle) {
        Err(error) => Err(error),
        Ok(head) => {
            let row = t.rows[head];
            match reported_usage(row, response, accounting_rev) {
                Err(defect) => match closed_group(
                    t,
                    row.root_id,
                    State::ConsumedUnrecoverable,
                    row.liability,
                    None,
                ) {
                    Err(error) => Err(error),
                    Ok(after) => Ok(
                        (
                            Settlement::WrittenOff(defect),
                            TablesView {
                                latches: t.latches.push(defect_latch(row, defect, now)),
                                ..after
                            },
                        ),
                    ),
                },
                Ok(actual) => match closed_group(
                    t,
                    row.root_id,
                    State::Settled,
                    actual,
                    Some(actual),
                ) {
                    Err(error) => Err(error),
                    Ok(after) => {
                        let overrun = actual > row.liability;
                        Ok(
                            (
                                Settlement::Settled { actual, overrun },
                                if overrun {
                                    TablesView {
                                        latches: t.latches.push(overrun_latch(row, actual, now)),
                                        ..after
                                    }
                                } else {
                                    after
                                },
                            ),
                        )
                    },
                },
            }
        },
    }
}

/// Law: settling leaves the tables in the shape the schema keeps.
pub proof fn settling_keeps_the_shape(
    t: TablesView,
    id: ReservationId,
    response: ResponseView,
    accounting_rev: i64,
    now: i64,
)
    requires
        tables_ok(t),
    ensures
        settle_outcome(t, id, response, accounting_rev, now) matches Ok((_, after)) ==> tables_ok(
            after,
        ),
{
    if let Ok((_, after)) = settle_outcome(t, id, response, accounting_rev, now) {
        let head = transition_group(t, id, Transition::Settle)->Ok_0;
        lemma_group_head(t.rows, id.0);
        let row = t.rows[head];
        match reported_usage(row, response, accounting_rev) {
            Err(_) => lemma_closing_keeps_the_shape(
                t,
                row.root_id,
                State::ConsumedUnrecoverable,
                row.liability,
                None,
            ),
            Ok(actual) => lemma_closing_keeps_the_shape(
                t,
                row.root_id,
                State::Settled,
                actual,
                Some(actual),
            ),
        }
    }
}

impl Ledger {
    /// Settles against authoritative usage. Usage that fails validation never
    /// releases liability: the group is written off in full and latched.
    /// Usage above the liability is recorded as reported, not clamped, and
    /// latches the model.
    pub fn settle(
        &mut self,
        id: ReservationId,
        response: &CompletedResponse,
        accounting_rev: i64,
        now: i64,
    ) -> (result: Result<Settlement, LedgerError>)
        requires
            old(self).ok(),
        ensures
            final(self).ok(),
            final(self).trust == old(self).trust,
            match settle_outcome(old(self).tables@, id, response@, accounting_rev, now) {
                Ok((settlement, after)) => result == Ok::<Settlement, LedgerError>(settlement)
                    && final(self).tables@ == after,
                Err(error) => result matches Err(e) && e@ == error && final(self).tables@ == old(
                    self,
                ).tables@,
            },
    {
        proof {
            settling_keeps_the_shape(self.tables@, id, response@, accounting_rev, now);
        }
        let ghost before = self.tables@;
        let head = match load_group(&self.tables.rows, id.0) {
            Err(error) => return Err(error),
            Ok(head) => head,
        };
        let row = self.tables.rows[head].copy();
        assert(before.rows[head as int] == row@);
        match ensure_allowed(row.root_id, row.state, Transition::Settle) {
            Err(error) => return Err(error),
            Ok(()) => {},
        }
        match validate(&row, response, accounting_rev) {
            Err(defect) => {
                match self.finish(
                    row.root_id,
                    State::ConsumedUnrecoverable,
                    row.liability,
                    None,
                ) {
                    Err(error) => return Err(error),
                    Ok(()) => {},
                }
                let mut reason = String::from_str("invalid usage: ");
                reason.push_str(defect_text(defect));
                let mut evidence = String::from_str("reservation ");
                push_signed(&mut evidence, row.root_id);
                self.insert_latch(
                    row.pool_id.clone(),
                    reason,
                    Some(evidence),
                    now,
                );
                Ok(Settlement::WrittenOff(defect))
            },
            Ok(actual) => {
                let overrun = actual > row.liability;
                match self.finish(row.root_id, State::Settled, actual, Some(actual)) {
                    Err(error) => return Err(error),
                    Ok(()) => {},
                }
                if overrun {
                    let mut scope = String::from_str("model:");
                    scope.push_str(row.model_snapshot.as_str());
                    let mut evidence = String::from_str("reservation ");
                    push_signed(&mut evidence, row.root_id);
                    evidence.push_str(": actual ");
                    push_signed(&mut evidence, actual);
                    evidence.push_str(" > liability ");
                    push_signed(&mut evidence, row.liability);
                    self.insert_latch(
                        scope,
                        String::from_str("reported usage exceeded the reserved liability"),
                        Some(evidence),
                        now,
                    );
                }
                Ok(Settlement::Settled { actual, overrun })
            },
        }
    }

    /// Sets a latch.
    pub fn insert_latch(
        &mut self,
        scope: String,
        reason: String,
        evidence: Option<String>,
        now: i64,
    )
        ensures
            final(self).trust == old(self).trust,
            final(self).tables@ == (TablesView {
                latches: old(self).tables@.latches.push(
                    LatchView {
                        scope: scope@,
                        reason: reason@,
                        evidence: text_view(evidence),
                        set_at: now,
                        cleared: None,
                    },
                ),
                ..old(self).tables@
            }),
    {
        let ghost before = self.tables@.latches;
        let latch = LatchRow { scope, reason, evidence, set_at: now, cleared: None };
        let ghost view = latch@;
        self.tables.latches.push(latch);
        assert(views(self.tables.latches@) =~= before.push(view));
    }
}

// ---------------------------------------------------------------------------
// Dispatch.

/// The record that must be durable outside the ledger before a dispatch.
pub open spec fn dispatch_mark(t: TablesView, id: ReservationId) -> Result<
    HighWaterMark,
    ErrorView,
> {
    match transition_group(t, id, Transition::BeginDispatch) {
        Err(error) => Err(error),
        Ok(head) => {
            let generation = t.meta.generation + 1;
            let cumulative = t.meta.cumulative_liability + t.rows[head].liability;
            if generation > i64::MAX || cumulative > i64::MAX {
                Err(ErrorView::Overflow)
            } else {
                Ok(
                    HighWaterMark {
                        generation: generation as i64,
                        cumulative_liability: cumulative as i64,
                        last_reservation: t.rows[head].root_id,
                    },
                )
            }
        },
    }
}

pub open spec fn updated_rows_text(root_id: i64, expected: nat, changed: nat) -> Seq<char> {
    "reservation group "@ + signed_text(root_id as int) + ": expected to update "@ + decimal_text(
        expected,
    ) + " rows, updated "@ + decimal_text(changed)
}

/// A dispatch begins only from the mark that was written for it.
pub open spec fn begin_outcome(
    t: TablesView,
    id: ReservationId,
    written: HighWaterMark,
) -> Result<TablesView, ErrorView> {
    match dispatch_mark(t, id) {
        Err(error) => Err(error),
        Ok(mark) => if mark != written {
            Err(ErrorView::Integrity(updated_rows_text(mark.last_reservation, 1, 0)))
        } else {
            Ok(
                TablesView {
                    rows: relabelled(t.rows, mark.last_reservation, State::Dispatching, None),
                    meta: LedgerMeta {
                        generation: mark.generation,
                        cumulative_liability: mark.cumulative_liability,
                        ..t.meta
                    },
                    ..t
                },
            )
        },
    }
}

/// The rows with a group's state replaced, and its response id where one is
/// given.
pub open spec fn renamed(
    rows: Seq<RowView>,
    root_id: i64,
    state: State,
    response_id: Option<Seq<char>>,
) -> Seq<RowView> {
    Seq::new(
        rows.len(),
        |i: int|
            if rows[i].root_id == root_id {
                RowView {
                    state,
                    response_id: if response_id is Some {
                        response_id
                    } else {
                        rows[i].response_id
                    },
                    ..rows[i]
                }
            } else {
                rows[i]
            },
    )
}

/// A transition that only changes what is known of a dispatch.
pub open spec fn relabel_outcome(
    t: TablesView,
    id: ReservationId,
    transition: Transition,
    response_id: Option<Seq<char>>,
) -> Result<TablesView, ErrorView> {
    match transition_group(t, id, transition) {
        Err(error) => Err(error),
        Ok(head) => Ok(
            TablesView {
                rows: renamed(t.rows, t.rows[head].root_id, target_of(transition), response_id),
                ..t
            },
        ),
    }
}

fn expect_rows(changed: usize, expected: usize, root_id: i64) -> (result: Result<(), LedgerError>)
    ensures
        match result {
            Ok(_) => changed == expected,
            Err(error) => changed != expected && error@ == ErrorView::Integrity(
                updated_rows_text(root_id, expected as nat, changed as nat),
            ),
        },
{
    if changed == expected {
        Ok(())
    } else {
        let mut text = String::from_str("reservation group ");
        push_signed(&mut text, root_id);
        text.push_str(": expected to update ");
        push_decimal(&mut text, expected as u128);
        text.push_str(" rows, updated ");
        push_decimal(&mut text, changed as u128);
        Err(LedgerError::Integrity(text))
    }
}

/// Law: beginning a dispatch leaves the tables in the shape the schema keeps.
pub proof fn beginning_keeps_the_shape(t: TablesView, id: ReservationId, written: HighWaterMark)
    requires
        tables_ok(t),
    ensures
        begin_outcome(t, id, written) matches Ok(after) ==> tables_ok(after),
{
    if let Ok(after) = begin_outcome(t, id, written) {
        lemma_group_head(t.rows, id.0);
        let head = transition_group(t, id, Transition::BeginDispatch)->Ok_0;
        assert(row_ok(t.rows[head], t.meta.current_epoch));
        assert forall|i: int| 0 <= i < after.rows.len() implies row_ok(
            #[trigger] after.rows[i],
            t.meta.current_epoch,
        ) && has_pool(after.pools, after.rows[i].pool_id, after.rows[i].epoch) by {
            assert(row_ok(t.rows[i], t.meta.current_epoch));
            if t.rows[i].root_id == t.rows[head].root_id {
                assert(t.rows[i].state == t.rows[head].state);
            }
        }
        lemma_rooted_extends(t.rows, after.rows);
    }
}

/// Law: learning about a dispatch leaves the tables in the shape the schema
/// keeps.
pub proof fn relabelling_keeps_the_shape(
    t: TablesView,
    id: ReservationId,
    transition: Transition,
    response_id: Option<Seq<char>>,
)
    requires
        tables_ok(t),
        (transition == Transition::AttachResponseId && response_id is Some) || (transition
            == Transition::MarkIdUnknown && response_id is None),
    ensures
        relabel_outcome(t, id, transition, response_id) matches Ok(after) ==> tables_ok(after),
{
    if let Ok(after) = relabel_outcome(t, id, transition, response_id) {
        lemma_group_head(t.rows, id.0);
        let head = transition_group(t, id, transition)->Ok_0;
        assert forall|i: int| 0 <= i < after.rows.len() implies row_ok(
            #[trigger] after.rows[i],
            t.meta.current_epoch,
        ) && has_pool(after.pools, after.rows[i].pool_id, after.rows[i].epoch) by {
            assert(row_ok(t.rows[i], t.meta.current_epoch));
            if t.rows[i].root_id == t.rows[head].root_id {
                assert(t.rows[i].state == t.rows[head].state);
            }
        }
        lemma_rooted_extends(t.rows, after.rows);
    }
}

impl Ledger {
    /// The record that must be written and synced outside the ledger before
    /// `begin_dispatch`, so that the external record never trails the ledger.
    pub fn dispatch_mark(&self, id: ReservationId) -> (result: Result<HighWaterMark, LedgerError>)
        requires
            self.ok(),
        ensures
            plain(result) == dispatch_mark(self.tables@, id),
    {
        let head = match load_group(&self.tables.rows, id.0) {
            Err(error) => return Err(error),
            Ok(head) => head,
        };
        let row = &self.tables.rows[head];
        assert(self.tables@.rows[head as int] == row@);
        assert(row_ok(self.tables@.rows[head as int], self.tables@.meta.current_epoch));
        match ensure_allowed(row.root_id, row.state, Transition::BeginDispatch) {
            Err(error) => return Err(error),
            Ok(()) => {},
        }
        let generation: i64 = match self.tables.meta.generation.checked_add(1) {
            None => return Err(LedgerError::Overflow),
            Some(generation) => generation,
        };
        let cumulative_liability: i64 = match self.tables.meta.cumulative_liability.checked_add(
            row.liability,
        ) {
            None => return Err(LedgerError::Overflow),
            Some(total) => total,
        };
        Ok(HighWaterMark { generation, cumulative_liability, last_reservation: row.root_id })
    }

    /// Durably records that dispatch is about to begin. Must complete before
    /// the first operation that can hand bytes to the HTTP stack.
    ///
    /// `written` is the external high-water mark, written and synced before
    /// this call; the ledger follows it only if it is the mark this dispatch
    /// needs. If this returns an error the request must not be sent.
    pub fn begin_dispatch(&mut self, id: ReservationId, written: HighWaterMark) -> (result: Result<
        (),
        LedgerError,
    >)
        requires
            old(self).ok(),
        ensures
            final(self).ok(),
            final(self).trust == old(self).trust,
            committed(
                old(self).tables@,
                final(self).tables@,
                result,
                begin_outcome(old(self).tables@, id, written),
            ),
    {
        proof {
            beginning_keeps_the_shape(self.tables@, id, written);
        }
        let mark = match self.dispatch_mark(id) {
            Err(error) => return Err(error),
            Ok(mark) => mark,
        };
        let followed: usize = if mark == written {
            1
        } else {
            0
        };
        match expect_rows(followed, 1, mark.last_reservation) {
            Err(error) => return Err(error),
            Ok(()) => {},
        }
        relabel_rows(&mut self.tables.rows, mark.last_reservation, State::Dispatching, None);
        self.tables.meta.generation = mark.generation;
        self.tables.meta.cumulative_liability = mark.cumulative_liability;
        Ok(())
    }

    pub fn attach_response_id(&mut self, id: ReservationId, response_id: &str) -> (result: Result<
        (),
        LedgerError,
    >)
        requires
            old(self).ok(),
        ensures
            final(self).ok(),
            final(self).trust == old(self).trust,
            committed(
                old(self).tables@,
                final(self).tables@,
                result,
                relabel_outcome(
                    old(self).tables@,
                    id,
                    Transition::AttachResponseId,
                    Some(response_id@),
                ),
            ),
    {
        self.relabel(id, Transition::AttachResponseId, Some(response_id))
    }

    pub fn mark_id_unknown(&mut self, id: ReservationId) -> (result: Result<(), LedgerError>)
        requires
            old(self).ok(),
        ensures
            final(self).ok(),
            final(self).trust == old(self).trust,
            committed(
                old(self).tables@,
                final(self).tables@,
                result,
                relabel_outcome(old(self).tables@, id, Transition::MarkIdUnknown, None),
            ),
    {
        self.relabel(id, Transition::MarkIdUnknown, None)
    }

    fn relabel(
        &mut self,
        id: ReservationId,
        transition: Transition,
        response_id: Option<&str>,
    ) -> (result: Result<(), LedgerError>)
        requires
            old(self).ok(),
            (transition == Transition::AttachResponseId && response_id is Some) || (transition
                == Transition::MarkIdUnknown && response_id is None),
        ensures
            final(self).ok(),
            final(self).trust == old(self).trust,
            committed(
                old(self).tables@,
                final(self).tables@,
                result,
                relabel_outcome(old(self).tables@, id, transition, str_view(response_id)),
            ),
    {
        proof {
            relabelling_keeps_the_shape(self.tables@, id, transition, str_view(response_id));
        }
        let head = match load_group(&self.tables.rows, id.0) {
            Err(error) => return Err(error),
            Ok(head) => head,
        };
        let root_id: i64 = self.tables.rows[head].root_id;
        let from = self.tables.rows[head].state;
        assert(self.tables@.rows[head as int] == self.tables.rows@[head as int]@);
        match ensure_allowed(root_id, from, transition) {
            Err(error) => return Err(error),
            Ok(()) => {},
        }
        let target = transition.target();
        let ghost before = self.tables@.rows;
        let ghost after = renamed(before, root_id, target, str_view(response_id));
        let mut i: usize = 0;
        while i < self.tables.rows.len()
            invariant
                i <= self.tables.rows@.len(),
                self.tables.rows@.len() == before.len(),
                self.trust == old(self).trust,
                before == old(self).tables@.rows,
                self.tables@ == (TablesView {
                    rows: views(self.tables.rows@),
                    ..old(self).tables@
                }),
                after == renamed(before, root_id, target, str_view(response_id)),
                forall|j: int| 0 <= j < i ==> (#[trigger] self.tables.rows@[j])@ == after[j],
                forall|j: int|
                    i <= j < before.len() ==> (#[trigger] self.tables.rows@[j])@ == before[j],
            decreases self.tables.rows.len() - i,
        {
            assert(self.tables.rows@[i as int]@ == before[i as int]);
            if self.tables.rows[i].root_id == root_id {
                self.tables.rows[i].state = target;
                match response_id {
                    Some(text) => {
                        self.tables.rows[i].response_id = Some(text.to_owned());
                    },
                    None => {},
                }
            }
            assert(self.tables.rows@[i as int]@ == after[i as int]);
            i = i + 1;
        }
        assert(views(self.tables.rows@) =~= after);
        Ok(())
    }
}

} // verus!
