//! What every ledger operation keeps: the books stay in order, and what may
//! reach upstream stays within the grant.
use vstd::prelude::*;

use crate::error::ErrorView;
use crate::hwm::HighWaterMark;
use crate::ledger::ReservationId;
use crate::state::{active, target_of, State, Transition};
use crate::tables::{
    books_balance, groups_agree, held, held_term, lemma_one_term, lemma_pool_index, lemma_total_le,
    lemma_total_same, lemma_total_splits, lemma_total_take, lemma_total_zero,
    never_exceeds_the_grant, overrun, overrun_term, pool_index, row_ok, same_grants, sound,
    spending_covered, spent, spent_term, tables_ok, tallied, total, within_grants, PoolView,
    RowView, TablesView,
};
use crate::transitions::{
    begin_outcome, closed_group, closed_pools, constant_amount, dispatch_mark, ending_outcome,
    group_term, lemma_closed_pools, lemma_group_head, lemma_row_index, liability_amount,
    relabel_outcome, reported_usage, row_index, settle_outcome, transition_group, ResponseView,
    Settlement,
};
use crate::trust::{assessment_of, not_behind, Assessment, TrustVerdict, UnknownReason};

verus! {

/// Law: while the books are in order and every pool is within its grant,
/// settled consumption plus the maximum possible consumption of every request
/// that may have reached upstream never exceeds the grant, but for what the
/// provider reported beyond the liabilities.
pub proof fn ordered_books_never_exceed_the_grant(t: TablesView)
    requires
        sound(t),
        within_grants(t.pools, t.rows),
    ensures
        never_exceeds_the_grant(t),
{
}

/// Law: in a pool day where no settlement went beyond its liability, being
/// within the grant is just that: consumed and reserved together fit it.
pub proof fn without_an_overrun_the_grant_is_kept(t: TablesView, i: int)
    requires
        within_grants(t.pools, t.rows),
        0 <= i < t.pools.len(),
        forall|j: int|
            0 <= j < t.rows.len() && (#[trigger] t.rows[j]).pool_id == t.pools[i].pool_id
                && t.rows[j].epoch == t.pools[i].epoch && t.rows[j].state is Settled
                ==> t.rows[j].settled->0 <= t.rows[j].liability,
    ensures
        t.pools[i].consumed + t.pools[i].reserved <= t.pools[i].granted,
{
    lemma_total_zero(t.rows, overrun_term(t.pools[i].pool_id, t.pools[i].epoch));
}

/// The rows of a group are all in one active state with one liability.
pub open spec fn active_group(rows: Seq<RowView>, root_id: i64, liability: i64) -> bool {
    forall|i: int|
        0 <= i < rows.len() && (#[trigger] rows[i]).root_id == root_id ==> active(rows[i].state)
            && rows[i].liability == liability
}

/// What ending a group adds to `consumed` is what its rows then account for.
pub open spec fn accounted(
    target: State,
    consumed: i64,
    settled: Option<i64>,
    liability: i64,
) -> bool {
    match target {
        State::Settled => settled == Some(consumed),
        State::ConsumedUnrecoverable => consumed == liability,
        _ => consumed == 0,
    }
}

/// Law: ending a group keeps the books in order, the tally exact and every
/// pool within its grant.
pub proof fn closing_keeps_the_books(
    t: TablesView,
    root_id: i64,
    liability: i64,
    target: State,
    consumed: i64,
    settled: Option<i64>,
)
    requires
        tables_ok(t),
        sound(t),
        active_group(t.rows, root_id, liability),
        !active(target),
        accounted(target, consumed, settled, liability),
        closed_group(t, root_id, target, consumed, settled) is Ok,
    ensures
        ({
            let after = closed_group(t, root_id, target, consumed, settled)->Ok_0;
            &&& sound(after)
            &&& same_grants(t.pools, after.pools)
            &&& tallied(t.pools, t.rows) ==> tallied(after.pools, after.rows)
            &&& within_grants(t.pools, t.rows) ==> within_grants(after.pools, after.rows)
        }),
{
    let after = closed_group(t, root_id, target, consumed, settled)->Ok_0;
    lemma_closed_pools(t.pools, t.rows, root_id, consumed, t.meta.current_epoch);
    assert forall|i: int| 0 <= i < after.pools.len() implies {
        &&& (#[trigger] after.pools[i]).reserved == held(
            after.rows,
            after.pools[i].pool_id,
            after.pools[i].epoch,
        )
        &&& spent(after.rows, after.pools[i].pool_id, after.pools[i].epoch)
            <= after.pools[i].consumed
        &&& tallied(t.pools, t.rows) ==> after.pools[i].consumed == spent(
            after.rows,
            after.pools[i].pool_id,
            after.pools[i].epoch,
        )
        &&& within_grants(t.pools, t.rows) ==> after.pools[i].reserved <= after.pools[i].granted
            && after.pools[i].consumed + after.pools[i].reserved <= after.pools[i].granted
            + overrun(after.rows, after.pools[i].pool_id, after.pools[i].epoch)
    } by {
        let p = t.pools[i];
        let released = group_term(root_id, p.pool_id, p.epoch, liability_amount());
        let charged = group_term(root_id, p.pool_id, p.epoch, constant_amount(consumed));
        assert forall|j: int| 0 <= j < t.rows.len() implies held_term(p.pool_id, p.epoch)(
            #[trigger] t.rows[j],
        ) == held_term(p.pool_id, p.epoch)(after.rows[j]) + released(t.rows[j]) by {
            assert(row_ok(t.rows[j], t.meta.current_epoch));
        }
        lemma_total_splits(
            t.rows,
            held_term(p.pool_id, p.epoch),
            after.rows,
            held_term(p.pool_id, p.epoch),
            t.rows,
            released,
        );
        assert forall|j: int| 0 <= j < after.rows.len() implies spent_term(p.pool_id, p.epoch)(
            #[trigger] after.rows[j],
        ) == spent_term(p.pool_id, p.epoch)(t.rows[j]) + charged(t.rows[j]) by {
            assert(row_ok(t.rows[j], t.meta.current_epoch));
        }
        lemma_total_splits(
            after.rows,
            spent_term(p.pool_id, p.epoch),
            t.rows,
            spent_term(p.pool_id, p.epoch),
            t.rows,
            charged,
        );
        // What is charged beyond what is released is the group's overrun.
        let beyond = if target is Settled && consumed > liability {
            consumed - liability
        } else {
            0
        };
        let extra = group_term(root_id, p.pool_id, p.epoch, |row: RowView| beyond);
        let covered = |row: RowView| released(row) + extra(row);
        let none = |row: RowView| 0int;
        assert forall|j: int| 0 <= j < t.rows.len() implies {
            &&& overrun_term(p.pool_id, p.epoch)(after.rows[j]) == overrun_term(
                p.pool_id,
                p.epoch,
            )(#[trigger] t.rows[j]) + extra(t.rows[j])
            &&& charged(t.rows[j]) <= covered(t.rows[j])
            &&& none(t.rows[j]) <= released(t.rows[j])
        } by {
            assert(row_ok(t.rows[j], t.meta.current_epoch));
        }
        assert forall|j: int| 0 <= j < after.rows.len() implies overrun_term(p.pool_id, p.epoch)(
            #[trigger] after.rows[j],
        ) == overrun_term(p.pool_id, p.epoch)(t.rows[j]) + extra(t.rows[j]) by {
            assert(t.rows[j] == t.rows[j]);
        }
        lemma_total_splits(
            after.rows,
            overrun_term(p.pool_id, p.epoch),
            t.rows,
            overrun_term(p.pool_id, p.epoch),
            t.rows,
            extra,
        );
        lemma_total_splits(t.rows, covered, t.rows, released, t.rows, extra);
        lemma_total_le(t.rows, charged, covered);
        lemma_total_zero(t.rows, none);
        lemma_total_le(t.rows, none, released);
    }
    assert forall|i: int, j: int|
        0 <= i < after.rows.len() && 0 <= j < after.rows.len() && (
        #[trigger] after.rows[i]).root_id == (#[trigger] after.rows[j]).root_id implies
        after.rows[i].state == after.rows[j].state && after.rows[i].liability
        == after.rows[j].liability by {
        assert(t.rows[i].root_id == t.rows[j].root_id);
    }
}

/// In the pool day of each of its rows, a group that ends gives up that row's
/// liability and consumes what it is charged.
proof fn lemma_closing_moves_each_row(
    t: TablesView,
    root_id: i64,
    target: State,
    consumed: i64,
    settled: Option<i64>,
    j: int,
    k: int,
)
    requires
        tables_ok(t),
        closed_group(t, root_id, target, consumed, settled) is Ok,
        0 <= j < t.rows.len(),
        t.rows[j].root_id == root_id,
        0 <= k < t.pools.len(),
        t.pools[k].pool_id == t.rows[j].pool_id,
        t.pools[k].epoch == t.rows[j].epoch,
    ensures
        ({
            let after = closed_group(t, root_id, target, consumed, settled)->Ok_0.pools[k];
            &&& after.reserved == t.pools[k].reserved - t.rows[j].liability
            &&& after.consumed == t.pools[k].consumed + consumed
        }),
{
    let p = t.pools[k];
    lemma_closed_pools(t.pools, t.rows, root_id, consumed, t.meta.current_epoch);
    lemma_one_term(t.rows, group_term(root_id, p.pool_id, p.epoch, liability_amount()), j);
    lemma_one_term(t.rows, group_term(root_id, p.pool_id, p.epoch, constant_amount(consumed)), j);
}

/// Law: settling charges the usage that was reported and releases the rest of
/// the reservation, in every day the request was carried through. Usage that
/// cannot be trusted charges the whole reservation.
pub proof fn settling_charges_the_usage_and_releases_the_rest(
    t: TablesView,
    id: ReservationId,
    response: ResponseView,
    accounting_rev: i64,
    now: i64,
    j: int,
    k: int,
)
    requires
        tables_ok(t),
        0 <= j < t.rows.len(),
        transition_group(t, id, Transition::Settle) matches Ok(head) ==> t.rows[j].root_id
            == t.rows[head].root_id,
        0 <= k < t.pools.len(),
        t.pools[k].pool_id == t.rows[j].pool_id,
        t.pools[k].epoch == t.rows[j].epoch,
    ensures
        settle_outcome(t, id, response, accounting_rev, now) matches Ok((settlement, after)) ==> {
            &&& after.pools[k].reserved == t.pools[k].reserved - t.rows[j].liability
            &&& settlement matches Settlement::Settled { actual, .. } ==> after.pools[k].consumed
                == t.pools[k].consumed + actual
            &&& settlement is WrittenOff ==> after.pools[k].consumed == t.pools[k].consumed
                + t.rows[j].liability
        },
{
    if settle_outcome(t, id, response, accounting_rev, now) is Ok {
        let row = t.rows[transition_group(t, id, Transition::Settle)->Ok_0];
        match reported_usage(row, response, accounting_rev) {
            Err(_) => lemma_closing_moves_each_row(
                t,
                row.root_id,
                State::ConsumedUnrecoverable,
                row.liability,
                None,
                j,
                k,
            ),
            Ok(actual) => lemma_closing_moves_each_row(
                t,
                row.root_id,
                State::Settled,
                actual,
                Some(actual),
                j,
                k,
            ),
        }
    }
}

/// Law: a request that was never sent, or that was refused before processing,
/// gives back its whole reservation and is charged nothing.
pub proof fn a_release_gives_everything_back(
    t: TablesView,
    id: ReservationId,
    transition: Transition,
    j: int,
    k: int,
)
    requires
        tables_ok(t),
        transition == Transition::ReleaseUnsent || transition
            == Transition::RejectBeforeProcessing,
        0 <= j < t.rows.len(),
        transition_group(t, id, transition) matches Ok(head) ==> t.rows[j].root_id
            == t.rows[head].root_id,
        0 <= k < t.pools.len(),
        t.pools[k].pool_id == t.rows[j].pool_id,
        t.pools[k].epoch == t.rows[j].epoch,
    ensures
        ending_outcome(t, id, transition) matches Ok(after) ==> {
            &&& after.pools[k].reserved == t.pools[k].reserved - t.rows[j].liability
            &&& after.pools[k].consumed == t.pools[k].consumed
        },
{
    if ending_outcome(t, id, transition) is Ok {
        let row = t.rows[transition_group(t, id, transition)->Ok_0];
        lemma_closing_moves_each_row(t, row.root_id, target_of(transition), 0, None, j, k);
    }
}

/// Law: while the books are in order, ending an active group fails only where
/// a consumption counter would overflow. No liability is ever missing from the
/// counter it was added to.
pub proof fn ordered_books_always_close(
    t: TablesView,
    root_id: i64,
    liability: i64,
    consumed: i64,
)
    requires
        tables_ok(t),
        sound(t),
        active_group(t.rows, root_id, liability),
        0 <= consumed,
    ensures
        closed_pools(t.pools, t.rows, root_id, consumed) matches Err(error) ==> error
            == ErrorView::Overflow,
{
    assert(t.rows.take(t.rows.len() as int) =~= t.rows);
    lemma_prefix_closes(t, root_id, liability, consumed, t.rows.len() as int);
}

proof fn lemma_prefix_closes(
    t: TablesView,
    root_id: i64,
    liability: i64,
    consumed: i64,
    n: int,
)
    requires
        tables_ok(t),
        sound(t),
        active_group(t.rows, root_id, liability),
        0 <= consumed,
        0 <= n <= t.rows.len(),
    ensures
        closed_pools(t.pools, t.rows.take(n), root_id, consumed) matches Err(error) ==> error
            == ErrorView::Overflow,
    decreases n,
{
    if n > 0 {
        lemma_prefix_closes(t, root_id, liability, consumed, n - 1);
        let prefix = t.rows.take(n);
        assert(prefix.drop_last() =~= t.rows.take(n - 1));
        let row = t.rows[n - 1];
        assert(row_ok(row, t.meta.current_epoch));
        if closed_pools(t.pools, prefix.drop_last(), root_id, consumed) is Ok && row.root_id
            == root_id {
            let so_far = closed_pools(t.pools, prefix.drop_last(), root_id, consumed)->Ok_0;
            lemma_closed_pools(
                t.pools,
                prefix.drop_last(),
                root_id,
                consumed,
                t.meta.current_epoch,
            );
            lemma_pool_index(so_far, row.pool_id, row.epoch);
            let k = choose|k: int|
                0 <= k < t.pools.len() && (#[trigger] t.pools[k]).pool_id == row.pool_id
                    && t.pools[k].epoch == row.epoch;
            assert(so_far[k].pool_id == row.pool_id && so_far[k].epoch == row.epoch);
            let found = pool_index(so_far, row.pool_id, row.epoch)->0;
            let p = t.pools[found];
            assert(p.pool_id == row.pool_id && p.epoch == row.epoch);
            let released = group_term(root_id, p.pool_id, p.epoch, liability_amount());
            assert forall|j: int| 0 <= j < t.rows.len() implies released(#[trigger] t.rows[j])
                <= held_term(p.pool_id, p.epoch)(t.rows[j]) && 0 <= released(t.rows[j]) by {
                assert(row_ok(t.rows[j], t.meta.current_epoch));
            }
            lemma_total_le(t.rows, released, held_term(p.pool_id, p.epoch));
            lemma_total_take(t.rows, n, released);
            assert(total(prefix, released) == total(prefix.drop_last(), released) + released(
                prefix.last(),
            ));
            assert(so_far[found].reserved - row.liability >= 0);
        }
    }
}

/// The group a transition applies to is active throughout.
proof fn lemma_transition_group_is_active(
    t: TablesView,
    id: ReservationId,
    transition: Transition,
)
    ensures
        transition_group(t, id, transition) matches Ok(head) ==> {
            &&& 0 <= head < t.rows.len()
            &&& active_group(t.rows, t.rows[head].root_id, t.rows[head].liability)
        },
{
    lemma_group_head(t.rows, id.0);
}

/// Law: writing off, releasing and recording a rejection keep the books in
/// order, the tally exact and every pool within its grant.
pub proof fn ending_keeps_the_books(t: TablesView, id: ReservationId, transition: Transition)
    requires
        tables_ok(t),
        sound(t),
        transition == Transition::Unrecoverable || transition == Transition::ReleaseUnsent
            || transition == Transition::RejectBeforeProcessing,
    ensures
        ending_outcome(t, id, transition) matches Ok(after) ==> {
            &&& sound(after)
            &&& same_grants(t.pools, after.pools)
            &&& tallied(t.pools, t.rows) ==> tallied(after.pools, after.rows)
            &&& within_grants(t.pools, t.rows) ==> within_grants(after.pools, after.rows)
        },
{
    lemma_transition_group_is_active(t, id, transition);
    if let Ok(after) = ending_outcome(t, id, transition) {
        let row = t.rows[transition_group(t, id, transition)->Ok_0];
        assert(row_ok(row, t.meta.current_epoch));
        let consumed = if transition == Transition::Unrecoverable {
            row.liability
        } else {
            0
        };
        closing_keeps_the_books(
            t,
            row.root_id,
            row.liability,
            target_of(transition),
            consumed,
            None,
        );
    }
}

/// Law: settling keeps the books in order, the tally exact and every pool
/// within its grant, but for what the provider reported beyond the liability;
/// and then a latch on the model is set.
pub proof fn settling_keeps_the_books(
    t: TablesView,
    id: ReservationId,
    response: ResponseView,
    accounting_rev: i64,
    now: i64,
)
    requires
        tables_ok(t),
        sound(t),
    ensures
        settle_outcome(t, id, response, accounting_rev, now) matches Ok((settlement, after)) ==> {
            &&& sound(after)
            &&& same_grants(t.pools, after.pools)
            &&& tallied(t.pools, t.rows) ==> tallied(after.pools, after.rows)
            &&& within_grants(t.pools, t.rows) ==> within_grants(after.pools, after.rows)
            &&& after.latches.len() > t.latches.len() <==> (settlement is WrittenOff
                || settlement->overrun)
        },
{
    lemma_transition_group_is_active(t, id, Transition::Settle);
    if let Ok((settlement, after)) = settle_outcome(t, id, response, accounting_rev, now) {
        let row = t.rows[transition_group(t, id, Transition::Settle)->Ok_0];
        match reported_usage(row, response, accounting_rev) {
            Err(_) => {
                closing_keeps_the_books(
                    t,
                    row.root_id,
                    row.liability,
                    State::ConsumedUnrecoverable,
                    row.liability,
                    None,
                );
                let closed = closed_group(
                    t,
                    row.root_id,
                    State::ConsumedUnrecoverable,
                    row.liability,
                    None,
                )->Ok_0;
                assert(after.rows == closed.rows && after.pools == closed.pools);
            },
            Ok(actual) => {
                closing_keeps_the_books(
                    t,
                    row.root_id,
                    row.liability,
                    State::Settled,
                    actual,
                    Some(actual),
                );
                let closed = closed_group(
                    t,
                    row.root_id,
                    State::Settled,
                    actual,
                    Some(actual),
                )->Ok_0;
                assert(after.rows == closed.rows && after.pools == closed.pools);
            },
        }
    }
}

/// Rows that differ only in which active state a group is in hold and spend
/// the same.
proof fn lemma_active_relabelling_keeps_the_books(
    pools: Seq<PoolView>,
    before: Seq<RowView>,
    after: Seq<RowView>,
    root_id: i64,
    target: State,
)
    requires
        before.len() == after.len(),
        active(target),
        forall|i: int|
            0 <= i < before.len() ==> {
                &&& (#[trigger] after[i]).root_id == before[i].root_id
                &&& after[i].pool_id == before[i].pool_id
                &&& after[i].epoch == before[i].epoch
                &&& after[i].liability == before[i].liability
                &&& if before[i].root_id == root_id {
                    active(before[i].state) && after[i].state == target
                } else {
                    after[i].state == before[i].state && after[i].settled == before[i].settled
                }
            },
        groups_agree(before),
        books_balance(pools, before),
        spending_covered(pools, before),
    ensures
        groups_agree(after),
        books_balance(pools, after),
        spending_covered(pools, after),
        tallied(pools, before) ==> tallied(pools, after),
        within_grants(pools, before) ==> within_grants(pools, after),
{
    let none = |row: RowView| 0int;
    lemma_total_zero(before, none);
    assert forall|i: int| 0 <= i < pools.len() implies {
        &&& (#[trigger] pools[i]).reserved == held(after, pools[i].pool_id, pools[i].epoch)
        &&& spent(after, pools[i].pool_id, pools[i].epoch) == spent(
            before,
            pools[i].pool_id,
            pools[i].epoch,
        )
        &&& overrun(after, pools[i].pool_id, pools[i].epoch) == overrun(
            before,
            pools[i].pool_id,
            pools[i].epoch,
        )
    } by {
        let p = pools[i];
        assert forall|j: int| 0 <= j < after.len() implies overrun_term(p.pool_id, p.epoch)(
            #[trigger] after[j],
        ) == overrun_term(p.pool_id, p.epoch)(before[j]) by {}
        lemma_total_same(after, before, overrun_term(p.pool_id, p.epoch));
        assert forall|j: int| 0 <= j < after.len() implies held_term(p.pool_id, p.epoch)(
            #[trigger] after[j],
        ) == held_term(p.pool_id, p.epoch)(before[j]) + none(before[j]) && spent_term(
            p.pool_id,
            p.epoch,
        )(after[j]) == spent_term(p.pool_id, p.epoch)(before[j]) + none(before[j]) by {}
        lemma_total_splits(
            after,
            held_term(p.pool_id, p.epoch),
            before,
            held_term(p.pool_id, p.epoch),
            before,
            none,
        );
        lemma_total_splits(
            after,
            spent_term(p.pool_id, p.epoch),
            before,
            spent_term(p.pool_id, p.epoch),
            before,
            none,
        );
    }
    assert forall|i: int, j: int|
        0 <= i < after.len() && 0 <= j < after.len() && (#[trigger] after[i]).root_id == (
        #[trigger] after[j]).root_id implies after[i].state == after[j].state && after[i].liability
        == after[j].liability by {
        assert(before[i].root_id == before[j].root_id);
    }
}

/// Law: beginning a dispatch and learning about it change no counter, and keep
/// the books in order, the tally exact and every pool within its grant.
pub proof fn dispatching_keeps_the_books(
    t: TablesView,
    id: ReservationId,
    written: HighWaterMark,
    transition: Transition,
    response_id: Option<Seq<char>>,
)
    requires
        tables_ok(t),
        sound(t),
        transition == Transition::AttachResponseId || transition == Transition::MarkIdUnknown,
    ensures
        begin_outcome(t, id, written) matches Ok(after) ==> {
            &&& sound(after)
            &&& after.pools == t.pools
            &&& tallied(t.pools, t.rows) ==> tallied(after.pools, after.rows)
            &&& within_grants(t.pools, t.rows) ==> within_grants(after.pools, after.rows)
        },
        relabel_outcome(t, id, transition, response_id) matches Ok(after) ==> {
            &&& sound(after)
            &&& after.pools == t.pools
            &&& tallied(t.pools, t.rows) ==> tallied(after.pools, after.rows)
            &&& within_grants(t.pools, t.rows) ==> within_grants(after.pools, after.rows)
        },
{
    lemma_transition_group_is_active(t, id, Transition::BeginDispatch);
    lemma_transition_group_is_active(t, id, transition);
    if let Ok(after) = begin_outcome(t, id, written) {
        let row = t.rows[transition_group(t, id, Transition::BeginDispatch)->Ok_0];
        lemma_active_relabelling_keeps_the_books(
            t.pools,
            t.rows,
            after.rows,
            row.root_id,
            State::Dispatching,
        );
    }
    if let Ok(after) = relabel_outcome(t, id, transition, response_id) {
        let row = t.rows[transition_group(t, id, transition)->Ok_0];
        lemma_active_relabelling_keeps_the_books(
            t.pools,
            t.rows,
            after.rows,
            row.root_id,
            target_of(transition),
        );
    }
}

/// Law: the external record never trails the ledger. The mark written before a
/// dispatch is ahead of the ledger, and the ledger then reaches exactly it.
pub proof fn the_external_record_never_trails(t: TablesView, id: ReservationId)
    requires
        tables_ok(t),
    ensures
        dispatch_mark(t, id) matches Ok(mark) ==> {
            &&& not_behind(mark, t.meta)
            &&& mark.generation == t.meta.generation + 1
            &&& begin_outcome(t, id, mark) matches Ok(after) && not_behind(mark, after.meta)
                && after.meta.generation == mark.generation && after.meta.cumulative_liability
                == mark.cumulative_liability
        },
{
    lemma_transition_group_is_active(t, id, Transition::BeginDispatch);
    if let Ok(mark) = dispatch_mark(t, id) {
        let head = transition_group(t, id, Transition::BeginDispatch)->Ok_0;
        assert(row_ok(t.rows[head], t.meta.current_epoch));
    }
}

/// Law: a process that dies after writing the external record and before the
/// ledger follows it finds, on restart, exactly that reservation to treat as
/// sent.
pub proof fn an_uncommitted_dispatch_is_promoted(t: TablesView, id: ReservationId)
    requires
        tables_ok(t),
        sound(t),
        !t.meta.clean_shutdown,
    ensures
        dispatch_mark(t, id) matches Ok(mark) ==> ({
            let found = row_index(t.rows, mark.last_reservation);
            &&& found matches Some(k) && assessment_of(
                t.meta,
                Ok(Some(mark)),
                Some((t.rows[k].state, t.rows[k].liability)),
            ) == (Assessment {
                verdict: TrustVerdict::Unknown(UnknownReason::UncleanShutdown),
                promote_to_id_unknown: Some(mark.last_reservation),
            })
        }),
{
    lemma_transition_group_is_active(t, id, Transition::BeginDispatch);
    if let Ok(mark) = dispatch_mark(t, id) {
        let head = transition_group(t, id, Transition::BeginDispatch)->Ok_0;
        assert(row_ok(t.rows[head], t.meta.current_epoch));
        lemma_row_index(t.rows, mark.last_reservation);
        lemma_group_head(t.rows, id.0);
        let root = choose|k: int|
            0 <= k < t.rows.len() && (#[trigger] t.rows[k]).id == mark.last_reservation
                && t.rows[k].root_id == mark.last_reservation;
        assert(crate::tables::has_root(t.rows, t.rows[head].root_id));
        let k = row_index(t.rows, mark.last_reservation)->0;
        assert(t.rows[k].id == t.rows[root].id);
        if k < root {
            assert(t.rows[k].id < t.rows[root].id);
        } else if root < k {
            assert(t.rows[root].id < t.rows[k].id);
        }
        assert(t.rows[k].state == t.rows[head].state);
        assert(t.rows[k].liability == t.rows[head].liability);
    }
}

/// Law: a request that is written off is charged its whole reservation.
pub proof fn a_write_off_charges_everything(t: TablesView, id: ReservationId, j: int, k: int)
    requires
        tables_ok(t),
        0 <= j < t.rows.len(),
        transition_group(t, id, Transition::Unrecoverable) matches Ok(head) ==> t.rows[j].root_id
            == t.rows[head].root_id,
        0 <= k < t.pools.len(),
        t.pools[k].pool_id == t.rows[j].pool_id,
        t.pools[k].epoch == t.rows[j].epoch,
    ensures
        ending_outcome(t, id, Transition::Unrecoverable) matches Ok(after) ==> {
            &&& after.pools[k].reserved == t.pools[k].reserved - t.rows[j].liability
            &&& after.pools[k].consumed == t.pools[k].consumed + t.rows[j].liability
        },
{
    if ending_outcome(t, id, Transition::Unrecoverable) is Ok {
        lemma_group_head(t.rows, id.0);
        let row = t.rows[transition_group(t, id, Transition::Unrecoverable)->Ok_0];
        lemma_closing_moves_each_row(
            t,
            row.root_id,
            State::ConsumedUnrecoverable,
            row.liability,
            None,
            j,
            k,
        );
    }
}

} // verus!
