//! Daily rollover, and adoption of consumption recovered after the ledger
//! could not be trusted.
use vstd::prelude::*;
use vstd::string::*;

use crate::error::{plain, ErrorView, LedgerError};
use crate::hwm::HighWaterMark;
use crate::ledger::{next_id, Ledger};
use crate::state::active;
use crate::tables::{
    books_balance, copy_pools, copy_rows, find_pool, flight_term, groups_agree, has_pool, has_root,
    held, held_term, in_flight, lemma_overrun_is_not_negative, lemma_pool_index, lemma_rooted_extends,
    lemma_total_prefix, lemma_total_push, lemma_total_zero, overrun, overrun_term, pool_index, pools_ok, rooted, row_ok,
    rows_ok, same_pool, sound, spending_covered, spent, spent_term, tables_ok, tallied, views,
    within_grants, PoolRow, PoolView, ReservationRow, RowView, TablesView,
};
use crate::text::{push_signed, signed_text};
use crate::transitions::{adjust_pool, adjusted, committed};
use crate::trust::{not_behind, LedgerMeta, TrustVerdict};

verus! {

#[derive(Debug, Clone, Copy, PartialEq, Eq, Structural)]
pub enum RolloverOutcome {
    AlreadyCurrent,
    Advanced { carried: usize },
}

/// Grants by pool, with the pool names as characters.
pub open spec fn grants_view(grants: Seq<(String, u64)>) -> Seq<(Seq<char>, u64)> {
    Seq::new(grants.len(), |i: int| (grants[i].0@, grants[i].1))
}

/// The pools with the new epoch opened for every granted pool. The first grant
/// of a pool counts.
pub open spec fn opened(
    pools: Seq<PoolView>,
    grants: Seq<(Seq<char>, u64)>,
    new_epoch: i64,
) -> Result<Seq<PoolView>, ErrorView>
    decreases grants.len(),
{
    if grants.len() == 0 {
        Ok(pools)
    } else {
        match opened(pools, grants.drop_last(), new_epoch) {
            Err(error) => Err(error),
            Ok(so_far) => {
                let (pool_id, granted) = grants.last();
                if granted > i64::MAX {
                    Err(ErrorView::Overflow)
                } else if has_pool(so_far, pool_id, new_epoch) {
                    Ok(so_far)
                } else {
                    Ok(
                        so_far.push(
                            PoolView {
                                pool_id,
                                epoch: new_epoch,
                                granted: granted as i64,
                                consumed: 0,
                                reserved: 0,
                            },
                        ),
                    )
                }
            },
        }
    }
}

/// The newest row of its group.
pub open spec fn newest(rows: Seq<RowView>, i: int) -> bool {
    forall|j: int|
        0 <= j < rows.len() && (#[trigger] rows[j]).root_id == rows[i].root_id ==> rows[j].epoch
            <= rows[i].epoch
}

/// The newest row of an active group, which a rollover carries.
pub open spec fn carries(rows: Seq<RowView>, i: int) -> bool {
    active(rows[i].state) && newest(rows, i)
}

/// A row's successor in the new epoch.
pub open spec fn carried_row(row: RowView, id: i64, new_epoch: i64) -> RowView {
    RowView { id, epoch: new_epoch, settled: None, ..row }
}

pub open spec fn no_grant_text(pool_id: Seq<char>) -> Seq<char> {
    "no grant supplied for pool "@ + pool_id + " which has active reservations"@
}

/// The pools and rows once the active groups among the first `n` rows have
/// been carried into the new epoch.
pub open spec fn carried(
    pools: Seq<PoolView>,
    rows: Seq<RowView>,
    n: int,
    new_epoch: i64,
) -> Result<(Seq<PoolView>, Seq<RowView>), ErrorView>
    decreases n,
{
    if n <= 0 {
        Ok((pools, rows))
    } else {
        match carried(pools, rows, n - 1, new_epoch) {
            Err(error) => Err(error),
            Ok((so_far, all)) => if carries(rows, n - 1) {
                let row = rows[n - 1];
                if !has_pool(so_far, row.pool_id, new_epoch) {
                    Err(ErrorView::Integrity(no_grant_text(row.pool_id)))
                } else if next_id(all) > i64::MAX {
                    Err(ErrorView::Overflow)
                } else {
                    match adjusted(so_far, row.pool_id, new_epoch, row.liability as int, 0) {
                        Err(error) => Err(error),
                        Ok(after) => Ok(
                            (after, all.push(carried_row(row, next_id(all) as i64, new_epoch))),
                        ),
                    }
                }
            } else {
                Ok((so_far, all))
            },
        }
    }
}

/// Opening a new epoch: the outcome and the tables after it.
pub open spec fn rollover_outcome(
    t: TablesView,
    new_epoch: i64,
    grants: Seq<(Seq<char>, u64)>,
) -> Result<(RolloverOutcome, TablesView), ErrorView> {
    if new_epoch <= t.meta.current_epoch {
        Ok((RolloverOutcome::AlreadyCurrent, t))
    } else {
        match opened(t.pools, grants, new_epoch) {
            Err(error) => Err(error),
            Ok(pools) => match carried(pools, t.rows, t.rows.len() as int, new_epoch) {
                Err(error) => Err(error),
                Ok((pools, rows)) => Ok(
                    (
                        RolloverOutcome::Advanced {
                            carried: (rows.len() - t.rows.len()) as usize,
                        },
                        TablesView {
                            pools,
                            rows,
                            meta: LedgerMeta { current_epoch: new_epoch, ..t.meta },
                            ..t
                        },
                    ),
                ),
            },
        }
    }
}

/// What opening an epoch leaves of the pools that were there.
pub open spec fn extends(before: Seq<PoolView>, after: Seq<PoolView>) -> bool {
    before.len() <= after.len() && forall|i: int|
        0 <= i < before.len() ==> #[trigger] after[i] == before[i]
}

proof fn lemma_opened(
    pools: Seq<PoolView>,
    grants: Seq<(Seq<char>, u64)>,
    new_epoch: i64,
    current_epoch: i64,
)
    requires
        pools_ok(pools, current_epoch),
        current_epoch < new_epoch,
        opened(pools, grants, new_epoch) is Ok,
    ensures
        ({
            let after = opened(pools, grants, new_epoch)->Ok_0;
            &&& extends(pools, after)
            &&& pools_ok(after, new_epoch)
            &&& forall|i: int|
                pools.len() <= i < after.len() ==> (#[trigger] after[i]).epoch == new_epoch
                    && after[i].consumed == 0 && after[i].reserved == 0
        }),
    decreases grants.len(),
{
    if grants.len() > 0 {
        lemma_opened(pools, grants.drop_last(), new_epoch, current_epoch);
        let so_far = opened(pools, grants.drop_last(), new_epoch)->Ok_0;
        let after = opened(pools, grants, new_epoch)->Ok_0;
        if after != so_far {
            assert forall|i: int, j: int| 0 <= i < j < after.len() implies !same_pool(
                #[trigger] after[i],
                #[trigger] after[j],
            ) by {
                if j < so_far.len() {
                    assert(!same_pool(so_far[i], so_far[j]));
                } else if same_pool(after[i], after[j]) {
                    assert(so_far[i].pool_id == grants.last().0 && so_far[i].epoch == new_epoch);
                    assert(has_pool(so_far, grants.last().0, new_epoch));
                }
            }
        }
    }
}

/// Carrying changes nothing of a pool day but what the new epoch reserves.
pub open spec fn days_match(
    before: Seq<PoolView>,
    after: Seq<PoolView>,
    new_epoch: i64,
) -> bool {
    before.len() == after.len() && forall|i: int|
        0 <= i < before.len() ==> {
            &&& (#[trigger] after[i]).pool_id == before[i].pool_id
            &&& after[i].epoch == before[i].epoch
            &&& after[i].granted == before[i].granted
            &&& after[i].consumed == before[i].consumed
            &&& before[i].epoch < new_epoch ==> after[i].reserved == before[i].reserved
        }
}

/// A row is the successor of a carried one.
pub open spec fn succeeds(rows: Seq<RowView>, n: int, row: RowView, new_epoch: i64) -> bool {
    exists|k: int|
        0 <= k < n && carries(rows, k) && row == carried_row(#[trigger] rows[k], row.id, new_epoch)
}

/// The rows are as they were, followed by successors of carried rows.
#[verifier::opaque]
pub open spec fn appended(
    rows: Seq<RowView>,
    now_rows: Seq<RowView>,
    n: int,
    new_epoch: i64,
) -> bool {
    &&& rows.len() <= now_rows.len() <= rows.len() + n
    &&& forall|i: int| 0 <= i < rows.len() ==> #[trigger] now_rows[i] == rows[i]
    &&& forall|i: int|
        rows.len() <= i < now_rows.len() ==> succeeds(rows, n, #[trigger] now_rows[i], new_epoch)
}

/// Some added row continues the group.
pub open spec fn continued(rows: Seq<RowView>, now_rows: Seq<RowView>, root_id: i64) -> bool {
    exists|i: int| rows.len() <= i < now_rows.len() && (#[trigger] now_rows[i]).root_id == root_id
}

/// Every carried row has a successor.
#[verifier::opaque]
pub open spec fn all_continued(rows: Seq<RowView>, now_rows: Seq<RowView>, n: int) -> bool {
    forall|k: int|
        0 <= k < n && carries(rows, k) ==> continued(rows, now_rows, (#[trigger] rows[k]).root_id)
}

proof fn lemma_pool_step(
    p: Seq<PoolView>,
    pool_id: Seq<char>,
    new_epoch: i64,
    liability: int,
)
    requires
        pools_ok(p, new_epoch),
        adjusted(p, pool_id, new_epoch, liability, 0) is Ok,
    ensures
        ({
            let after = adjusted(p, pool_id, new_epoch, liability, 0)->Ok_0;
            &&& pools_ok(after, new_epoch)
            &&& days_match(p, after, new_epoch)
            &&& forall|pool: Seq<char>, e: i64| has_pool(p, pool, e) ==> has_pool(after, pool, e)
        }),
{
    let after = adjusted(p, pool_id, new_epoch, liability, 0)->Ok_0;
    lemma_pool_index(p, pool_id, new_epoch);
    assert forall|i: int, j: int| 0 <= i < j < after.len() implies !same_pool(
        #[trigger] after[i],
        #[trigger] after[j],
    ) by {
        assert(!same_pool(p[i], p[j]));
    }
    assert forall|pool: Seq<char>, e: i64| has_pool(p, pool, e) implies has_pool(
        after,
        pool,
        e,
    ) by {
        let j = choose|j: int|
            0 <= j < p.len() && (#[trigger] p[j]).pool_id == pool && p[j].epoch == e;
        assert(after[j].pool_id == pool && after[j].epoch == e);
    }
}

/// Adding the successor of `rows[n - 1]` keeps the rows in shape.
proof fn lemma_row_step(
    rows: Seq<RowView>,
    r: Seq<RowView>,
    p: Seq<PoolView>,
    now_pools: Seq<PoolView>,
    n: int,
    new_epoch: i64,
    current_epoch: i64,
)
    requires
        0 < n <= rows.len(),
        current_epoch < new_epoch,
        forall|i: int| 0 <= i < rows.len() ==> row_ok(#[trigger] rows[i], current_epoch),
        forall|i: int, j: int|
            0 <= i < j < rows.len() && rows[i].root_id == rows[j].root_id ==> (
            #[trigger] rows[i]).epoch < (#[trigger] rows[j]).epoch,
        rows_ok(r, p, new_epoch),
        rooted(r),
        appended(rows, r, n - 1, new_epoch),
        carries(rows, n - 1),
        next_id(r) <= i64::MAX,
        has_pool(p, rows[n - 1].pool_id, new_epoch),
        forall|pool: Seq<char>, e: i64| has_pool(p, pool, e) ==> has_pool(now_pools, pool, e),
    ensures
        ({
            let now_rows = r.push(carried_row(rows[n - 1], next_id(r) as i64, new_epoch));
            &&& rows_ok(now_rows, now_pools, new_epoch)
            &&& rooted(now_rows)
        }),
{
    reveal(appended);
    let row = rows[n - 1];
    let now_rows = r.push(carried_row(row, next_id(r) as i64, new_epoch));
    let last = r.len() as int;
    assert(r[n - 1] == row);
    assert(r.last() == r[last - 1]);
    assert(row_ok(row, current_epoch));
    assert(r[n - 1].id <= r.last().id);
    assert forall|i: int| 0 <= i < now_rows.len() implies row_ok(#[trigger] now_rows[i], new_epoch)
        && has_pool(now_pools, now_rows[i].pool_id, now_rows[i].epoch) by {
        if i < last {
            assert(row_ok(r[i], new_epoch));
            assert(has_pool(p, r[i].pool_id, r[i].epoch));
        }
    }
    assert forall|i: int, j: int| 0 <= i < j < now_rows.len() implies (
    #[trigger] now_rows[i]).id < (#[trigger] now_rows[j]).id by {
        assert(r[i].id <= r.last().id);
    }
    assert forall|i: int, j: int|
        0 <= i < j < now_rows.len() && now_rows[i].root_id == now_rows[j].root_id implies (
    #[trigger] now_rows[i]).epoch < (#[trigger] now_rows[j]).epoch by {
        if j == last {
            // The new row's group has no row in the new epoch yet.
            if i < rows.len() {
                assert(r[i] == rows[i]);
                assert(row_ok(rows[i], current_epoch));
            } else {
                assert(succeeds(rows, n - 1, r[i], new_epoch));
                let m = choose|m: int|
                    0 <= m < n - 1 && carries(rows, m) && r[i] == carried_row(
                        #[trigger] rows[m],
                        r[i].id,
                        new_epoch,
                    );
                assert(rows[m].root_id == row.root_id);
                assert(rows[m].epoch < rows[n - 1].epoch);
                assert(newest(rows, m));
            }
        } else {
            assert(now_rows[i] == r[i] && now_rows[j] == r[j]);
        }
    }
    assert(has_root(r, r[n - 1].root_id));
    lemma_rooted_extends(r, now_rows);
}

proof fn lemma_appended_step(
    rows: Seq<RowView>,
    r: Seq<RowView>,
    n: int,
    new_epoch: i64,
    id: i64,
)
    requires
        0 < n <= rows.len(),
        appended(rows, r, n - 1, new_epoch),
        all_continued(rows, r, n - 1),
        carries(rows, n - 1),
    ensures
        appended(rows, r.push(carried_row(rows[n - 1], id, new_epoch)), n, new_epoch),
        all_continued(rows, r.push(carried_row(rows[n - 1], id, new_epoch)), n),
{
    reveal(appended);
    reveal(all_continued);
    let now_rows = r.push(carried_row(rows[n - 1], id, new_epoch));
    assert forall|i: int| rows.len() <= i < now_rows.len() implies succeeds(
        rows,
        n,
        #[trigger] now_rows[i],
        new_epoch,
    ) by {
        if i < r.len() {
            assert(succeeds(rows, n - 1, r[i], new_epoch));
            let m = choose|m: int|
                0 <= m < n - 1 && carries(rows, m) && r[i] == carried_row(
                    #[trigger] rows[m],
                    r[i].id,
                    new_epoch,
                );
            assert(now_rows[i] == carried_row(rows[m], now_rows[i].id, new_epoch));
        } else {
            assert(now_rows[i] == carried_row(rows[n - 1], now_rows[i].id, new_epoch));
        }
    }
    assert forall|k: int| 0 <= k < n && carries(rows, k) implies continued(
        rows,
        now_rows,
        (#[trigger] rows[k]).root_id,
    ) by {
        if k < n - 1 {
            assert(continued(rows, r, rows[k].root_id));
            let i = choose|i: int|
                rows.len() <= i < r.len() && (#[trigger] r[i]).root_id == rows[k].root_id;
            assert(now_rows[i].root_id == rows[k].root_id);
        } else {
            assert(now_rows[r.len() as int].root_id == rows[k].root_id);
        }
    }
}

proof fn lemma_carried(
    pools: Seq<PoolView>,
    rows: Seq<RowView>,
    n: int,
    new_epoch: i64,
    current_epoch: i64,
)
    requires
        0 <= n <= rows.len(),
        pools_ok(pools, new_epoch),
        rows_ok(rows, pools, current_epoch),
        rooted(rows),
        current_epoch < new_epoch,
        carried(pools, rows, n, new_epoch) is Ok,
    ensures
        ({
            let (now_pools, now_rows) = carried(pools, rows, n, new_epoch)->Ok_0;
            &&& pools_ok(now_pools, new_epoch)
            &&& days_match(pools, now_pools, new_epoch)
            &&& rows_ok(now_rows, now_pools, new_epoch)
            &&& rooted(now_rows)
            &&& appended(rows, now_rows, n, new_epoch)
            &&& all_continued(rows, now_rows, n)
        }),
    decreases n,
{
    if n == 0 {
        reveal(appended);
        reveal(all_continued);
        assert forall|i: int| 0 <= i < rows.len() implies row_ok(#[trigger] rows[i], new_epoch)
            && has_pool(pools, rows[i].pool_id, rows[i].epoch) by {
            assert(row_ok(rows[i], current_epoch));
        }
    } else {
        lemma_carried(pools, rows, n - 1, new_epoch, current_epoch);
        let (p, r) = carried(pools, rows, n - 1, new_epoch)->Ok_0;
        if carries(rows, n - 1) {
            let row = rows[n - 1];
            let now_pools = adjusted(p, row.pool_id, new_epoch, row.liability as int, 0)->Ok_0;
            lemma_pool_step(p, row.pool_id, new_epoch, row.liability as int);
            lemma_row_step(rows, r, p, now_pools, n, new_epoch, current_epoch);
            lemma_appended_step(rows, r, n, new_epoch, next_id(r) as i64);
        } else {
            lemma_nothing_added(rows, r, n, new_epoch);
        }
    }
}

proof fn lemma_nothing_added(rows: Seq<RowView>, r: Seq<RowView>, n: int, new_epoch: i64)
    requires
        0 < n <= rows.len(),
        appended(rows, r, n - 1, new_epoch),
        all_continued(rows, r, n - 1),
        !carries(rows, n - 1),
    ensures
        appended(rows, r, n, new_epoch),
        all_continued(rows, r, n),
{
    reveal(appended);
    reveal(all_continued);
    assert forall|i: int| rows.len() <= i < r.len() implies succeeds(
        rows,
        n,
        #[trigger] r[i],
        new_epoch,
    ) by {
        assert(succeeds(rows, n - 1, r[i], new_epoch));
        let m = choose|m: int|
            0 <= m < n - 1 && carries(rows, m) && r[i] == carried_row(
                #[trigger] rows[m],
                r[i].id,
                new_epoch,
            );
        assert(r[i] == carried_row(rows[m], r[i].id, new_epoch));
    }
}

/// Law: opening an epoch leaves the tables in the shape the schema keeps, and
/// every earlier pool day exactly as it was.
pub proof fn rollover_keeps_the_shape(
    t: TablesView,
    new_epoch: i64,
    grants: Seq<(Seq<char>, u64)>,
)
    requires
        tables_ok(t),
    ensures
        rollover_outcome(t, new_epoch, grants) matches Ok((_, after)) ==> tables_ok(after)
            && extends(t.pools, after.pools),
{
    if let Ok((outcome, after)) = rollover_outcome(t, new_epoch, grants) {
        if new_epoch > t.meta.current_epoch {
            lemma_opened(t.pools, grants, new_epoch, t.meta.current_epoch);
            let pools = opened(t.pools, grants, new_epoch)->Ok_0;
            lemma_rows_keep_pools(t, pools);
            lemma_carried(pools, t.rows, t.rows.len() as int, new_epoch, t.meta.current_epoch);
            assert forall|i: int| 0 <= i < t.pools.len() implies #[trigger] after.pools[i]
                == t.pools[i] by {
                assert(pools[i] == t.pools[i]);
            }
        }
    }
}

/// Law: opening an epoch twice changes nothing the second time, so re-running
/// after a crash cannot duplicate a liability.
pub proof fn rollover_is_monotonic(
    t: TablesView,
    new_epoch: i64,
    grants: Seq<(Seq<char>, u64)>,
    again: i64,
    other_grants: Seq<(Seq<char>, u64)>,
)
    ensures
        rollover_outcome(t, new_epoch, grants) matches Ok((_, after)) ==> {
            &&& after.meta.current_epoch >= t.meta.current_epoch
            &&& after.meta.current_epoch >= new_epoch
            &&& again <= after.meta.current_epoch ==> rollover_outcome(after, again, other_grants)
                == Ok::<(RolloverOutcome, TablesView), ErrorView>(
                (RolloverOutcome::AlreadyCurrent, after),
            )
        },
{
}

fn is_newest(rows: &Vec<ReservationRow>, i: usize) -> (yes: bool)
    requires
        i < rows@.len(),
    ensures
        yes == newest(views(rows@), i as int),
{
    let ghost all = views(rows@);
    let mut j: usize = 0;
    while j < rows.len()
        invariant
            i < rows@.len(),
            j <= rows@.len(),
            all == views(rows@),
            forall|m: int|
                0 <= m < j && (#[trigger] all[m]).root_id == all[i as int].root_id ==> all[m].epoch
                    <= all[i as int].epoch,
        decreases rows.len() - j,
    {
        assert(all[j as int] == rows@[j as int]@ && all[i as int] == rows@[i as int]@);
        if rows[j].root_id == rows[i].root_id && rows[j].epoch > rows[i].epoch {
            return false;
        }
        j = j + 1;
    }
    true
}

/// Opens the new epoch for every granted pool.
fn open_pools(pools: &mut Vec<PoolRow>, grants: &[(String, u64)], new_epoch: i64) -> (result:
    Result<(), LedgerError>)
    ensures
        match opened(views(old(pools)@), grants_view(grants@), new_epoch) {
            Ok(after) => result is Ok && views(final(pools)@) == after,
            Err(error) => result matches Err(e) && e@ == error,
        },
{
    let ghost before = views(pools@);
    let ghost all = grants_view(grants@);
    let mut i: usize = 0;
    assert(all.take(0) =~= Seq::<(Seq<char>, u64)>::empty());
    while i < grants.len()
        invariant
            i <= grants@.len(),
            all == grants_view(grants@),
            before == views(old(pools)@),
            opened(before, all.take(i as int), new_epoch) == Ok::<Seq<PoolView>, ErrorView>(
                views(pools@),
            ),
        decreases grants.len() - i,
    {
        let ghost so_far = views(pools@);
        assert(all.take(i + 1).drop_last() =~= all.take(i as int));
        assert(all.take(i + 1).last() == (grants@[i as int].0@, grants@[i as int].1));
        let granted: u64 = grants[i].1;
        if granted > i64::MAX as u64 {
            proof {
                lemma_opened_fails(before, all, i + 1, new_epoch);
            }
            return Err(LedgerError::Overflow);
        }
        proof {
            lemma_pool_index(so_far, grants@[i as int].0@, new_epoch);
        }
        if find_pool(pools, grants[i].0.as_str(), new_epoch).is_none() {
            let row = PoolRow {
                pool_id: grants[i].0.clone(),
                epoch: new_epoch,
                granted: granted as i64,
                consumed: 0,
                reserved: 0,
            };
            let ghost added = row@;
            pools.push(row);
            assert(views(pools@) =~= so_far.push(added));
        }
        i = i + 1;
    }
    assert(all.take(i as int) =~= all);
    Ok(())
}

proof fn lemma_opened_fails(
    pools: Seq<PoolView>,
    grants: Seq<(Seq<char>, u64)>,
    n: int,
    new_epoch: i64,
)
    requires
        0 <= n <= grants.len(),
        opened(pools, grants.take(n), new_epoch) is Err,
    ensures
        opened(pools, grants, new_epoch) == opened(pools, grants.take(n), new_epoch),
    decreases grants.len() - n,
{
    if n < grants.len() {
        assert(grants.take(n + 1).drop_last() =~= grants.take(n));
        lemma_opened_fails(pools, grants, n + 1, new_epoch);
    } else {
        assert(grants.take(n) =~= grants);
    }
}

proof fn lemma_carried_fails(
    pools: Seq<PoolView>,
    rows: Seq<RowView>,
    n: int,
    total_rows: int,
    new_epoch: i64,
)
    requires
        0 <= n <= total_rows,
        carried(pools, rows, n, new_epoch) is Err,
    ensures
        carried(pools, rows, total_rows, new_epoch) == carried(pools, rows, n, new_epoch),
    decreases total_rows - n,
{
    if n < total_rows {
        lemma_carried_fails(pools, rows, n + 1, total_rows, new_epoch);
    }
}

impl Ledger {
    /// Opens `new_epoch` and carries every active reservation into it, at
    /// once. Monotonic: an epoch at or before the current one changes nothing,
    /// so re-running after a crash cannot duplicate a liability.
    ///
    /// Inserting a successor row is not enough on its own; the new epoch's
    /// `reserved` is raised by exactly the rows inserted here, or the next
    /// admission would read zero and hand out the full grant on top of a live
    /// liability.
    ///
    /// The caller must hold trusted time for the new epoch; the ledger cannot
    /// check that. `grants` must cover every pool with active reservations.
    pub fn rollover(&mut self, new_epoch: i64, grants: &[(String, u64)]) -> (result: Result<
        RolloverOutcome,
        LedgerError,
    >)
        requires
            old(self).ok(),
        ensures
            final(self).ok(),
            final(self).trust == old(self).trust,
            match rollover_outcome(old(self).tables@, new_epoch, grants_view(grants@)) {
                Ok((outcome, after)) => result == Ok::<RolloverOutcome, LedgerError>(outcome)
                    && final(self).tables@ == after,
                Err(error) => result matches Err(e) && e@ == error && final(self).tables@ == old(
                    self,
                ).tables@,
            },
    {
        let ghost before = self.tables@;
        proof {
            rollover_keeps_the_shape(before, new_epoch, grants_view(grants@));
        }
        if new_epoch <= self.tables.meta.current_epoch {
            return Ok(RolloverOutcome::AlreadyCurrent);
        }
        let mut pools = copy_pools(&self.tables.pools);
        match open_pools(&mut pools, grants, new_epoch) {
            Err(error) => return Err(error),
            Ok(()) => {},
        }
        let ghost opened_pools = views(pools@);
        let mut rows = copy_rows(&self.tables.rows);
        let count = self.tables.rows.len();
        let mut i: usize = 0;
        while i < count
            invariant
                i <= count,
                count == self.tables.rows@.len(),
                self.tables@ == before,
                self.trust == old(self).trust,
                before == old(self).tables@,
                tables_ok(before),
                new_epoch > before.meta.current_epoch,
                opened(before.pools, grants_view(grants@), new_epoch) == Ok::<
                    Seq<PoolView>,
                    ErrorView,
                >(opened_pools),
                carried(opened_pools, before.rows, i as int, new_epoch) == Ok::<
                    (Seq<PoolView>, Seq<RowView>),
                    ErrorView,
                >((views(pools@), views(rows@))),
            decreases count - i,
        {
            let ghost so_far = views(pools@);
            let ghost all = views(rows@);
            let row = &self.tables.rows[i];
            assert(before.rows[i as int] == row@);
            assert(row_ok(before.rows[i as int], before.meta.current_epoch));
            if row.state.is_active() && is_newest(&self.tables.rows, i) {
                assert(carries(before.rows, i as int));
                proof {
                    lemma_pool_index(so_far, row.pool_id@, new_epoch);
                }
                if find_pool(&pools, row.pool_id.as_str(), new_epoch).is_none() {
                    let mut text = String::from_str("no grant supplied for pool ");
                    text.push_str(row.pool_id.as_str());
                    text.push_str(" which has active reservations");
                    proof {
                        lemma_carried_fails(
                            opened_pools,
                            before.rows,
                            i + 1,
                            count as int,
                            new_epoch,
                        );
                    }
                    return Err(LedgerError::Integrity(text));
                }
                let last: i64 = if rows.len() == 0 {
                    0
                } else {
                    rows[rows.len() - 1].id
                };
                assert(rows@.len() > 0 ==> all.last() == rows@[rows@.len() - 1]@);
                let id: i64 = match last.checked_add(1) {
                    None => {
                        proof {
                            lemma_carried_fails(
                                opened_pools,
                                before.rows,
                                i + 1,
                                count as int,
                                new_epoch,
                            );
                        }
                        return Err(LedgerError::Overflow);
                    },
                    Some(id) => id,
                };
                match adjust_pool(&mut pools, row.pool_id.as_str(), new_epoch, row.liability, 0) {
                    Err(error) => {
                        proof {
                            lemma_carried_fails(
                                opened_pools,
                                before.rows,
                                i + 1,
                                count as int,
                                new_epoch,
                            );
                        }
                        return Err(error);
                    },
                    Ok(()) => {},
                }
                let mut successor = row.copy();
                successor.id = id;
                successor.epoch = new_epoch;
                successor.settled = None;
                let ghost added = successor@;
                rows.push(successor);
                assert(views(rows@) =~= all.push(added));
                assert(added == carried_row(before.rows[i as int], id, new_epoch));
            }
            i = i + 1;
        }
        proof {
            reveal(appended);
            lemma_opened(before.pools, grants_view(grants@), new_epoch, before.meta.current_epoch);
            lemma_rows_keep_pools(before, opened_pools);
            lemma_carried(
                opened_pools,
                before.rows,
                count as int,
                new_epoch,
                before.meta.current_epoch,
            );
        }
        let carried_count: usize = rows.len() - count;
        self.tables.pools = pools;
        self.tables.rows = rows;
        self.tables.meta.current_epoch = new_epoch;
        Ok(RolloverOutcome::Advanced { carried: carried_count })
    }
}

proof fn lemma_rows_keep_pools(t: TablesView, pools: Seq<PoolView>)
    requires
        tables_ok(t),
        extends(t.pools, pools),
    ensures
        rows_ok(t.rows, pools, t.meta.current_epoch),
{
    assert forall|i: int| 0 <= i < t.rows.len() implies has_pool(
        pools,
        (#[trigger] t.rows[i]).pool_id,
        t.rows[i].epoch,
    ) by {
        assert(has_pool(t.pools, t.rows[i].pool_id, t.rows[i].epoch));
        let k = choose|k: int|
            0 <= k < t.pools.len() && (#[trigger] t.pools[k]).pool_id == t.rows[i].pool_id
                && t.pools[k].epoch == t.rows[i].epoch;
        assert(pools[k] == t.pools[k]);
    }
}

// ---------------------------------------------------------------------------
// What a rollover keeps.

/// Every active group has a row in the current epoch.
pub open spec fn all_carried(t: TablesView) -> bool {
    forall|i: int|
        0 <= i < t.rows.len() && carries(t.rows, i) ==> (#[trigger] t.rows[i]).epoch
            == t.meta.current_epoch
}

/// A pool day that no row refers to holds and spends nothing.
proof fn lemma_untouched_day(rows: Seq<RowView>, pool_id: Seq<char>, epoch: i64)
    requires
        forall|i: int| 0 <= i < rows.len() ==> (#[trigger] rows[i]).epoch < epoch,
    ensures
        held(rows, pool_id, epoch) == 0,
        spent(rows, pool_id, epoch) == 0,
{
    assert forall|i: int| 0 <= i < rows.len() implies held_term(pool_id, epoch)(#[trigger] rows[i])
        == 0 && spent_term(pool_id, epoch)(rows[i]) == 0 by {}
    lemma_total_zero(rows, held_term(pool_id, epoch));
    lemma_total_zero(rows, spent_term(pool_id, epoch));
}

/// Carrying keeps the books in order, step by step.
proof fn lemma_carried_books(
    pools: Seq<PoolView>,
    rows: Seq<RowView>,
    n: int,
    new_epoch: i64,
    current_epoch: i64,
)
    requires
        0 <= n <= rows.len(),
        pools_ok(pools, new_epoch),
        rows_ok(rows, pools, current_epoch),
        rooted(rows),
        current_epoch < new_epoch,
        books_balance(pools, rows),
        spending_covered(pools, rows),
        carried(pools, rows, n, new_epoch) is Ok,
    ensures
        ({
            let (now_pools, now_rows) = carried(pools, rows, n, new_epoch)->Ok_0;
            &&& books_balance(now_pools, now_rows)
            &&& spending_covered(now_pools, now_rows)
            &&& tallied(pools, rows) ==> tallied(now_pools, now_rows)
        }),
    decreases n,
{
    if n > 0 {
        lemma_carried_books(pools, rows, n - 1, new_epoch, current_epoch);
        lemma_carried(pools, rows, n - 1, new_epoch, current_epoch);
        let (p, r) = carried(pools, rows, n - 1, new_epoch)->Ok_0;
        let (now_pools, now_rows) = carried(pools, rows, n, new_epoch)->Ok_0;
        if carries(rows, n - 1) {
            let row = rows[n - 1];
            let added = carried_row(row, next_id(r) as i64, new_epoch);
            lemma_pool_index(p, row.pool_id, new_epoch);
            let k = pool_index(p, row.pool_id, new_epoch)->0;
            assert forall|i: int| 0 <= i < now_pools.len() implies (
            #[trigger] now_pools[i]).reserved == held(
                now_rows,
                now_pools[i].pool_id,
                now_pools[i].epoch,
            ) && spent(now_rows, now_pools[i].pool_id, now_pools[i].epoch) == spent(
                r,
                p[i].pool_id,
                p[i].epoch,
            ) && now_pools[i].consumed == p[i].consumed by {
                let q = p[i];
                lemma_total_push(r, added, held_term(q.pool_id, q.epoch));
                lemma_total_push(r, added, spent_term(q.pool_id, q.epoch));
                if i < k {
                    assert(!same_pool(p[i], p[k]));
                } else if k < i {
                    assert(!same_pool(p[k], p[i]));
                }
            }
        }
    }
}

/// Law: a rollover keeps the books in order and the tally exact. In particular
/// the new epoch's `reserved` is exactly the liabilities carried into it.
pub proof fn rollover_keeps_the_books(
    t: TablesView,
    new_epoch: i64,
    grants: Seq<(Seq<char>, u64)>,
)
    requires
        tables_ok(t),
        sound(t),
    ensures
        rollover_outcome(t, new_epoch, grants) matches Ok((_, after)) ==> sound(after) && (
        tallied(t.pools, t.rows) ==> tallied(after.pools, after.rows)),
{
    if let Ok((_, after)) = rollover_outcome(t, new_epoch, grants) {
        if new_epoch > t.meta.current_epoch {
            let current = t.meta.current_epoch;
            lemma_opened(t.pools, grants, new_epoch, current);
            let pools = opened(t.pools, grants, new_epoch)->Ok_0;
            lemma_rows_keep_pools(t, pools);
            assert forall|i: int| 0 <= i < pools.len() implies (#[trigger] pools[i]).reserved
                == held(t.rows, pools[i].pool_id, pools[i].epoch) && spent(
                t.rows,
                pools[i].pool_id,
                pools[i].epoch,
            ) <= pools[i].consumed && (tallied(t.pools, t.rows) ==> spent(
                t.rows,
                pools[i].pool_id,
                pools[i].epoch,
            ) == pools[i].consumed) by {
                if i < t.pools.len() {
                    assert(pools[i] == t.pools[i]);
                } else {
                    assert forall|j: int| 0 <= j < t.rows.len() implies (
                    #[trigger] t.rows[j]).epoch < new_epoch by {
                        assert(row_ok(t.rows[j], current));
                    }
                    lemma_untouched_day(t.rows, pools[i].pool_id, new_epoch);
                }
            }
            lemma_carried_books(pools, t.rows, t.rows.len() as int, new_epoch, current);
            lemma_carried(pools, t.rows, t.rows.len() as int, new_epoch, current);
            lemma_carried_groups_agree(t.rows, after.rows, new_epoch);
        }
    }
}

proof fn lemma_carried_groups_agree(rows: Seq<RowView>, now_rows: Seq<RowView>, new_epoch: i64)
    requires
        groups_agree(rows),
        appended(rows, now_rows, rows.len() as int, new_epoch),
    ensures
        groups_agree(now_rows),
{
    reveal(appended);
    assert forall|i: int| 0 <= i < now_rows.len() implies exists|k: int|
        0 <= k < rows.len() && (#[trigger] rows[k]).root_id == (#[trigger] now_rows[i]).root_id
            && rows[k].state == now_rows[i].state && rows[k].liability
            == now_rows[i].liability by {
        if i < rows.len() {
            assert(rows[i].root_id == now_rows[i].root_id);
        } else {
            assert(succeeds(rows, rows.len() as int, now_rows[i], new_epoch));
        }
    }
    assert forall|i: int, j: int|
        0 <= i < now_rows.len() && 0 <= j < now_rows.len() && (#[trigger] now_rows[i]).root_id == (
        #[trigger] now_rows[j]).root_id implies now_rows[i].state == now_rows[j].state
        && now_rows[i].liability == now_rows[j].liability by {
        let a = choose|k: int|
            0 <= k < rows.len() && (#[trigger] rows[k]).root_id == now_rows[i].root_id
                && rows[k].state == now_rows[i].state && rows[k].liability
                == now_rows[i].liability;
        let b = choose|k: int|
            0 <= k < rows.len() && (#[trigger] rows[k]).root_id == now_rows[j].root_id
                && rows[k].state == now_rows[j].state && rows[k].liability
                == now_rows[j].liability;
        assert(rows[a].root_id == rows[b].root_id);
    }
}

/// Law: a new day opens no dispatch and ends none.
pub proof fn a_new_day_opens_no_dispatch(
    t: TablesView,
    new_epoch: i64,
    grants: Seq<(Seq<char>, u64)>,
)
    requires
        tables_ok(t),
    ensures
        rollover_outcome(t, new_epoch, grants) matches Ok((_, after)) ==> in_flight(after.rows)
            == in_flight(t.rows),
{
    if let Ok((_, after)) = rollover_outcome(t, new_epoch, grants) {
        if new_epoch > t.meta.current_epoch {
            let current = t.meta.current_epoch;
            lemma_opened(t.pools, grants, new_epoch, current);
            let pools = opened(t.pools, grants, new_epoch)->Ok_0;
            lemma_rows_keep_pools(t, pools);
            lemma_carried(pools, t.rows, t.rows.len() as int, new_epoch, current);
            reveal(appended);
            let n = t.rows.len() as int;
            assert(after.rows.take(n) =~= t.rows);
            assert forall|i: int| n <= i < after.rows.len() implies flight_term()(
                #[trigger] after.rows[i],
            ) == 0 by {
                assert(succeeds(t.rows, n, after.rows[i], new_epoch));
                let k = choose|k: int|
                    0 <= k < n && (#[trigger] t.rows[k]).root_id == after.rows[i].root_id;
                assert(row_ok(t.rows[k], current));
                assert(after.rows[k] == t.rows[k]);
                assert(after.rows[k].id < after.rows[i].id);
            }
            lemma_total_prefix(after.rows, n, flight_term());
        }
    }
}

/// Law: after a rollover every active group has a row in the new epoch.
pub proof fn rollover_carries_every_active_group(
    t: TablesView,
    new_epoch: i64,
    grants: Seq<(Seq<char>, u64)>,
)
    requires
        tables_ok(t),
        new_epoch > t.meta.current_epoch,
    ensures
        rollover_outcome(t, new_epoch, grants) matches Ok((_, after)) ==> all_carried(after),
{
    if let Ok((_, after)) = rollover_outcome(t, new_epoch, grants) {
        let current = t.meta.current_epoch;
        lemma_opened(t.pools, grants, new_epoch, current);
        let pools = opened(t.pools, grants, new_epoch)->Ok_0;
        lemma_rows_keep_pools(t, pools);
        lemma_carried(pools, t.rows, t.rows.len() as int, new_epoch, current);
        reveal(appended);
        reveal(all_continued);
        assert forall|i: int| 0 <= i < after.rows.len() && carries(after.rows, i) implies (
        #[trigger] after.rows[i]).epoch == new_epoch by {
            if i < t.rows.len() {
                assert(after.rows[i] == t.rows[i]);
                assert(row_ok(t.rows[i], current));
                assert forall|j: int|
                    0 <= j < t.rows.len() && (#[trigger] t.rows[j]).root_id
                        == t.rows[i].root_id implies t.rows[j].epoch <= t.rows[i].epoch by {
                    assert(after.rows[j] == t.rows[j]);
                }
                assert(carries(t.rows, i));
                assert(continued(t.rows, after.rows, t.rows[i].root_id));
                let j = choose|j: int|
                    t.rows.len() <= j < after.rows.len() && (#[trigger] after.rows[j]).root_id
                        == t.rows[i].root_id;
                assert(succeeds(t.rows, t.rows.len() as int, after.rows[j], new_epoch));
                assert(after.rows[j].epoch == new_epoch);
            } else {
                assert(succeeds(t.rows, t.rows.len() as int, after.rows[i], new_epoch));
            }
        }
    }
}

/// An active row is the newest of its group exactly when it is in the current
/// epoch.
proof fn lemma_carries_is_current(t: TablesView, i: int)
    requires
        tables_ok(t),
        all_carried(t),
        0 <= i < t.rows.len(),
        active(t.rows[i].state),
    ensures
        carries(t.rows, i) <==> t.rows[i].epoch == t.meta.current_epoch,
{
    if t.rows[i].epoch == t.meta.current_epoch {
        assert forall|j: int|
            0 <= j < t.rows.len() && (#[trigger] t.rows[j]).root_id
                == t.rows[i].root_id implies t.rows[j].epoch <= t.rows[i].epoch by {
            assert(row_ok(t.rows[j], t.meta.current_epoch));
        }
    }
}

/// What a pool of the new epoch reserves once the first `n` rows were
/// considered: what the pool held of them in the epoch before.
#[verifier::spinoff_prover]
#[verifier::rlimit(40)]
proof fn lemma_carried_amounts(t: TablesView, pools: Seq<PoolView>, n: int, new_epoch: i64, i: int)
    requires
        tables_ok(t),
        all_carried(t),
        0 <= n <= t.rows.len(),
        new_epoch > t.meta.current_epoch,
        pools_ok(pools, new_epoch),
        rows_ok(t.rows, pools, t.meta.current_epoch),
        0 <= i < pools.len(),
        pools[i].epoch == new_epoch,
        pools[i].reserved == 0,
        carried(pools, t.rows, n, new_epoch) is Ok,
    ensures
        carried(pools, t.rows, n, new_epoch)->Ok_0.0[i].reserved == held(
            t.rows.take(n),
            pools[i].pool_id,
            t.meta.current_epoch,
        ),
    decreases n,
{
    if n > 0 {
        lemma_carried_amounts(t, pools, n - 1, new_epoch, i);
        lemma_carried(pools, t.rows, n - 1, new_epoch, t.meta.current_epoch);
        let (p, r) = carried(pools, t.rows, n - 1, new_epoch)->Ok_0;
        assert(t.rows.take(n).drop_last() =~= t.rows.take(n - 1));
        let row = t.rows[n - 1];
        if active(row.state) {
            lemma_carries_is_current(t, n - 1);
        }
        if carries(t.rows, n - 1) {
            lemma_pool_index(p, row.pool_id, new_epoch);
            let k = pool_index(p, row.pool_id, new_epoch)->0;
            if i < k {
                assert(!same_pool(p[i], p[k]));
            } else if k < i {
                assert(!same_pool(p[k], p[i]));
            }
        }
    }
}

/// Law: what a pool reserves in the new epoch is exactly what it held in the
/// epoch before, and nothing is consumed there yet.
pub proof fn a_new_day_reserves_what_was_held(
    t: TablesView,
    new_epoch: i64,
    grants: Seq<(Seq<char>, u64)>,
)
    requires
        tables_ok(t),
        all_carried(t),
        new_epoch > t.meta.current_epoch,
    ensures
        rollover_outcome(t, new_epoch, grants) matches Ok((_, after)) ==> forall|i: int|
            t.pools.len() <= i < after.pools.len() ==> (#[trigger] after.pools[i]).reserved
                == held(t.rows, after.pools[i].pool_id, t.meta.current_epoch)
                && after.pools[i].consumed == 0 && after.pools[i].epoch == new_epoch,
{
    if let Ok((_, after)) = rollover_outcome(t, new_epoch, grants) {
        let current = t.meta.current_epoch;
        lemma_opened(t.pools, grants, new_epoch, current);
        let pools = opened(t.pools, grants, new_epoch)->Ok_0;
        lemma_rows_keep_pools(t, pools);
        lemma_carried(pools, t.rows, t.rows.len() as int, new_epoch, current);
        assert(t.rows.take(t.rows.len() as int) =~= t.rows);
        assert forall|i: int| t.pools.len() <= i < after.pools.len() implies (
        #[trigger] after.pools[i]).reserved == held(t.rows, after.pools[i].pool_id, current)
            && after.pools[i].consumed == 0 && after.pools[i].epoch == new_epoch by {
            assert(pools[i].epoch == new_epoch);
            lemma_carried_amounts(t, pools, t.rows.len() as int, new_epoch, i);
        }
    }
}

/// No pool's grant in a new epoch is smaller than in the epoch before.
pub open spec fn no_grant_shrinks(
    before: Seq<PoolView>,
    after: Seq<PoolView>,
    current_epoch: i64,
) -> bool {
    forall|i: int, k: int|
        before.len() <= i < after.len() && 0 <= k < before.len() && (#[trigger] before[k]).pool_id
            == (#[trigger] after[i]).pool_id && before[k].epoch == current_epoch
            ==> before[k].granted <= after[i].granted
}

/// Carrying settles nothing, so no overrun changes.
proof fn lemma_carried_overruns(
    pools: Seq<PoolView>,
    rows: Seq<RowView>,
    n: int,
    new_epoch: i64,
    pool_id: Seq<char>,
    epoch: i64,
)
    requires
        0 <= n <= rows.len(),
        carried(pools, rows, n, new_epoch) is Ok,
    ensures
        overrun(carried(pools, rows, n, new_epoch)->Ok_0.1, pool_id, epoch) == overrun(
            rows,
            pool_id,
            epoch,
        ),
    decreases n,
{
    if n > 0 {
        lemma_carried_overruns(pools, rows, n - 1, new_epoch, pool_id, epoch);
        let (_, r) = carried(pools, rows, n - 1, new_epoch)->Ok_0;
        if carries(rows, n - 1) {
            let added = carried_row(rows[n - 1], next_id(r) as i64, new_epoch);
            lemma_total_push(r, added, overrun_term(pool_id, epoch));
        }
    }
}

/// What a pool held in an epoch fits a grant that is no smaller than its grant
/// for that epoch.
proof fn lemma_held_is_granted(t: TablesView, pool_id: Seq<char>, epoch: i64, granted: int)
    requires
        tables_ok(t),
        sound(t),
        within_grants(t.pools, t.rows),
        granted >= 0,
        forall|k: int|
            0 <= k < t.pools.len() && (#[trigger] t.pools[k]).pool_id == pool_id
                && t.pools[k].epoch == epoch ==> t.pools[k].granted <= granted,
    ensures
        held(t.rows, pool_id, epoch) <= granted,
{
    if has_pool(t.pools, pool_id, epoch) {
        let k = choose|k: int|
            0 <= k < t.pools.len() && (#[trigger] t.pools[k]).pool_id == pool_id
                && t.pools[k].epoch == epoch;
        assert(t.pools[k].reserved == held(t.rows, t.pools[k].pool_id, t.pools[k].epoch));
    } else {
        assert forall|j: int| 0 <= j < t.rows.len() implies held_term(pool_id, epoch)(
            #[trigger] t.rows[j],
        ) == 0 by {
            assert(has_pool(t.pools, t.rows[j].pool_id, t.rows[j].epoch));
        }
        lemma_total_zero(t.rows, held_term(pool_id, epoch));
    }
}

/// Law: a rollover keeps every pool within its grant, where no grant shrinks.
/// What is still held then fits the new grant, since it fitted the last one.
pub proof fn rollover_keeps_within_grants(
    t: TablesView,
    new_epoch: i64,
    grants: Seq<(Seq<char>, u64)>,
)
    requires
        tables_ok(t),
        sound(t),
        all_carried(t),
        within_grants(t.pools, t.rows),
        new_epoch > t.meta.current_epoch,
    ensures
        rollover_outcome(t, new_epoch, grants) matches Ok((_, after)) ==> (no_grant_shrinks(
            t.pools,
            after.pools,
            t.meta.current_epoch,
        ) ==> within_grants(after.pools, after.rows)),
{
    if let Ok((_, after)) = rollover_outcome(t, new_epoch, grants) {
        let current = t.meta.current_epoch;
        rollover_keeps_the_shape(t, new_epoch, grants);
        a_new_day_reserves_what_was_held(t, new_epoch, grants);
        let pools = opened(t.pools, grants, new_epoch)->Ok_0;
        if no_grant_shrinks(t.pools, after.pools, current) {
            assert forall|i: int| 0 <= i < after.pools.len() implies (
            #[trigger] after.pools[i]).reserved <= after.pools[i].granted
                && after.pools[i].consumed + after.pools[i].reserved <= after.pools[i].granted
                + overrun(after.rows, after.pools[i].pool_id, after.pools[i].epoch) by {
                let p = after.pools[i];
                lemma_carried_overruns(
                    pools,
                    t.rows,
                    t.rows.len() as int,
                    new_epoch,
                    p.pool_id,
                    p.epoch,
                );
                lemma_overrun_is_not_negative(t.rows, p.pool_id, p.epoch);
                if i < t.pools.len() {
                    assert(after.pools[i] == t.pools[i]);
                } else {
                    lemma_held_is_granted(t, p.pool_id, current, p.granted as int);
                }
            }
        }
    }
}

/// What a list of grants gives a pool: the first grant it names.
pub open spec fn grant_of(grants: Seq<(Seq<char>, u64)>, pool_id: Seq<char>) -> Option<u64>
    decreases grants.len(),
{
    if grants.len() == 0 {
        None
    } else {
        match grant_of(grants.drop_last(), pool_id) {
            Some(granted) => Some(granted),
            None => if grants.last().0 == pool_id {
                Some(grants.last().1)
            } else {
                None
            },
        }
    }
}

/// The pools that are opened have what the grants give them.
proof fn lemma_opened_grants(
    pools: Seq<PoolView>,
    grants: Seq<(Seq<char>, u64)>,
    new_epoch: i64,
    current_epoch: i64,
)
    requires
        pools_ok(pools, current_epoch),
        current_epoch < new_epoch,
        opened(pools, grants, new_epoch) is Ok,
    ensures
        ({
            let after = opened(pools, grants, new_epoch)->Ok_0;
            &&& forall|i: int|
                pools.len() <= i < after.len() ==> grant_of(
                    grants,
                    (#[trigger] after[i]).pool_id,
                ) == Some(after[i].granted as u64)
            &&& forall|id: Seq<char>|
                #[trigger] grant_of(grants, id) is Some ==> has_pool(after, id, new_epoch)
        }),
    decreases grants.len(),
{
    if grants.len() > 0 {
        let earlier = grants.drop_last();
        lemma_opened_grants(pools, earlier, new_epoch, current_epoch);
        lemma_opened(pools, earlier, new_epoch, current_epoch);
        let so_far = opened(pools, earlier, new_epoch)->Ok_0;
        let after = opened(pools, grants, new_epoch)->Ok_0;
        let (name, granted) = grants.last();
        assert forall|i: int| pools.len() <= i < after.len() implies grant_of(
            grants,
            (#[trigger] after[i]).pool_id,
        ) == Some(after[i].granted as u64) by {
            if i < so_far.len() {
                assert(after[i] == so_far[i]);
            } else {
                assert(!(grant_of(earlier, name) is Some));
            }
        }
        assert forall|id: Seq<char>| #[trigger] grant_of(grants, id) is Some implies has_pool(
            after,
            id,
            new_epoch,
        ) by {
            if grant_of(earlier, id) is Some {
                let k = choose|k: int|
                    0 <= k < so_far.len() && (#[trigger] so_far[k]).pool_id == id
                        && so_far[k].epoch == new_epoch;
                assert(after[k] == so_far[k]);
            } else if has_pool(so_far, name, new_epoch) {
            } else {
                assert(after[so_far.len() as int].pool_id == id);
            }
        }
    }
}

/// Every pool day has what a list of grants gives its pool.
pub open spec fn granted_by(pools: Seq<PoolView>, grants: Seq<(Seq<char>, u64)>) -> bool {
    forall|i: int|
        0 <= i < pools.len() ==> grant_of(grants, (#[trigger] pools[i]).pool_id) == Some(
            pools[i].granted as u64,
        )
}

/// Law: where every day was opened with the same grants, so is the next one,
/// and no grant shrinks.
pub proof fn the_same_grants_open_the_same_day(
    t: TablesView,
    new_epoch: i64,
    grants: Seq<(Seq<char>, u64)>,
)
    requires
        tables_ok(t),
        granted_by(t.pools, grants),
    ensures
        rollover_outcome(t, new_epoch, grants) matches Ok((_, after)) ==> granted_by(
            after.pools,
            grants,
        ) && no_grant_shrinks(t.pools, after.pools, t.meta.current_epoch),
{
    if let Ok((_, after)) = rollover_outcome(t, new_epoch, grants) {
        if new_epoch > t.meta.current_epoch {
            let current = t.meta.current_epoch;
            rollover_keeps_the_shape(t, new_epoch, grants);
            lemma_opened(t.pools, grants, new_epoch, current);
            lemma_opened_grants(t.pools, grants, new_epoch, current);
            let pools = opened(t.pools, grants, new_epoch)->Ok_0;
            lemma_rows_keep_pools(t, pools);
            lemma_carried(pools, t.rows, t.rows.len() as int, new_epoch, current);
            assert forall|i: int| 0 <= i < after.pools.len() implies grant_of(
                grants,
                (#[trigger] after.pools[i]).pool_id,
            ) == Some(after.pools[i].granted as u64) by {
                if i < t.pools.len() {
                    assert(after.pools[i] == t.pools[i]);
                } else {
                    assert(pools[i].pool_id == after.pools[i].pool_id);
                }
            }
        }
    }
}

// ---------------------------------------------------------------------------
// Recovery.

/// Recovered consumption by pool and epoch, with the names as characters.
pub open spec fn adoptions_view(adoptions: Seq<(String, i64, u64)>) -> Seq<(Seq<char>, i64, u64)> {
    Seq::new(adoptions.len(), |i: int| (adoptions[i].0@, adoptions[i].1, adoptions[i].2))
}

/// The mark a recovered ledger is anchored to: one generation past both
/// records, and at least the liability of either.
pub open spec fn recovery_anchor(meta: LedgerMeta, external: Option<HighWaterMark>) -> Result<
    HighWaterMark,
    ErrorView,
> {
    let generation = match external {
        Some(mark) if mark.generation > meta.generation => mark.generation,
        _ => meta.generation,
    };
    let cumulative_liability = match external {
        Some(mark) if mark.cumulative_liability > meta.cumulative_liability => {
            mark.cumulative_liability
        },
        _ => meta.cumulative_liability,
    };
    if generation + 1 > i64::MAX {
        Err(ErrorView::Overflow)
    } else {
        Ok(
            HighWaterMark {
                generation: (generation + 1) as i64,
                cumulative_liability,
                last_reservation: 0,
            },
        )
    }
}

pub open spec fn not_open_text(pool_id: Seq<char>, epoch: i64) -> Seq<char> {
    "cannot adopt consumption for "@ + pool_id + " epoch "@ + signed_text(epoch as int)
        + ": not open"@
}

/// The pools with recovered consumption recorded where it is higher.
pub open spec fn adopted(
    pools: Seq<PoolView>,
    adoptions: Seq<(Seq<char>, i64, u64)>,
) -> Result<Seq<PoolView>, ErrorView>
    decreases adoptions.len(),
{
    if adoptions.len() == 0 {
        Ok(pools)
    } else {
        match adopted(pools, adoptions.drop_last()) {
            Err(error) => Err(error),
            Ok(so_far) => {
                let (pool_id, epoch, consumed) = adoptions.last();
                if consumed > i64::MAX {
                    Err(ErrorView::Overflow)
                } else {
                    match pool_index(so_far, pool_id, epoch) {
                        None => Err(ErrorView::Integrity(not_open_text(pool_id, epoch))),
                        Some(k) => Ok(
                            if consumed > so_far[k].consumed {
                                so_far.update(
                                    k,
                                    PoolView { consumed: consumed as i64, ..so_far[k] },
                                )
                            } else {
                                so_far
                            },
                        ),
                    }
                }
            },
        }
    }
}

/// The tables once recovered consumption has been adopted.
pub open spec fn adoption_outcome(
    t: TablesView,
    adoptions: Seq<(Seq<char>, i64, u64)>,
    external: Option<HighWaterMark>,
) -> Result<TablesView, ErrorView> {
    match recovery_anchor(t.meta, external) {
        Err(error) => Err(error),
        Ok(anchor) => match adopted(t.pools, adoptions) {
            Err(error) => Err(error),
            Ok(pools) => Ok(
                TablesView {
                    pools,
                    meta: LedgerMeta {
                        generation: anchor.generation,
                        cumulative_liability: anchor.cumulative_liability,
                        ..t.meta
                    },
                    ..t
                },
            ),
        },
    }
}

proof fn lemma_adopted(
    pools: Seq<PoolView>,
    adoptions: Seq<(Seq<char>, i64, u64)>,
    current_epoch: i64,
)
    requires
        pools_ok(pools, current_epoch),
        adopted(pools, adoptions) is Ok,
    ensures
        ({
            let after = adopted(pools, adoptions)->Ok_0;
            &&& pools_ok(after, current_epoch)
            &&& after.len() == pools.len()
            &&& forall|i: int|
                0 <= i < pools.len() ==> {
                    &&& after[i] == (PoolView {
                        consumed: (#[trigger] after[i]).consumed,
                        ..pools[i]
                    })
                    &&& after[i].consumed >= pools[i].consumed
                }
        }),
    decreases adoptions.len(),
{
    if adoptions.len() > 0 {
        lemma_adopted(pools, adoptions.drop_last(), current_epoch);
        let so_far = adopted(pools, adoptions.drop_last())->Ok_0;
        let (pool_id, epoch, _) = adoptions.last();
        lemma_pool_index(so_far, pool_id, epoch);
        let after = adopted(pools, adoptions)->Ok_0;
        assert forall|i: int, j: int| 0 <= i < j < after.len() implies !same_pool(
            #[trigger] after[i],
            #[trigger] after[j],
        ) by {
            assert(!same_pool(so_far[i], so_far[j]));
        }
    }
}

/// Law: adopting recovered consumption only ever raises what a pool has
/// consumed, changes nothing else of the pools or the rows, keeps the books in
/// order, and leaves neither record behind the other.
pub proof fn adoption_only_raises_consumption(
    t: TablesView,
    adoptions: Seq<(Seq<char>, i64, u64)>,
    external: Option<HighWaterMark>,
)
    requires
        tables_ok(t),
    ensures
        adoption_outcome(t, adoptions, external) matches Ok(after) ==> {
            &&& tables_ok(after)
            &&& sound(t) ==> sound(after)
            &&& after.rows == t.rows
            &&& after.pools.len() == t.pools.len()
            &&& forall|i: int|
                0 <= i < t.pools.len() ==> (#[trigger] after.pools[i]).consumed
                    >= t.pools[i].consumed && after.pools[i] == (PoolView {
                    consumed: after.pools[i].consumed,
                    ..t.pools[i]
                })
            &&& recovery_anchor(t.meta, external) matches Ok(anchor) && not_behind(
                anchor,
                after.meta,
            ) && after.meta.generation > t.meta.generation && (external matches Some(mark)
                ==> anchor.generation > mark.generation && anchor.cumulative_liability
                >= mark.cumulative_liability)
        },
{
    if let Ok(after) = adoption_outcome(t, adoptions, external) {
        lemma_adopted(t.pools, adoptions, t.meta.current_epoch);
        assert forall|pool: Seq<char>, e: i64| has_pool(t.pools, pool, e) implies has_pool(
            after.pools,
            pool,
            e,
        ) by {
            let j = choose|j: int|
                0 <= j < t.pools.len() && (#[trigger] t.pools[j]).pool_id == pool
                    && t.pools[j].epoch == e;
            assert(after.pools[j].pool_id == pool && after.pools[j].epoch == e);
        }
        if sound(t) {
            assert forall|i: int| 0 <= i < after.pools.len() implies (
            #[trigger] after.pools[i]).reserved == held(
                t.rows,
                after.pools[i].pool_id,
                after.pools[i].epoch,
            ) && spent(t.rows, after.pools[i].pool_id, after.pools[i].epoch)
                <= after.pools[i].consumed by {
                assert(t.pools[i].reserved == after.pools[i].reserved);
            }
        }
    }
}

proof fn lemma_adopted_fails(
    pools: Seq<PoolView>,
    adoptions: Seq<(Seq<char>, i64, u64)>,
    n: int,
)
    requires
        0 <= n <= adoptions.len(),
        adopted(pools, adoptions.take(n)) is Err,
    ensures
        adopted(pools, adoptions) == adopted(pools, adoptions.take(n)),
    decreases adoptions.len() - n,
{
    if n < adoptions.len() {
        assert(adoptions.take(n + 1).drop_last() =~= adoptions.take(n));
        lemma_adopted_fails(pools, adoptions, n + 1);
    } else {
        assert(adoptions.take(n) =~= adoptions);
    }
}

fn adopt_pools(pools: &mut Vec<PoolRow>, adoptions: &[(String, i64, u64)]) -> (result: Result<
    (),
    LedgerError,
>)
    ensures
        match adopted(views(old(pools)@), adoptions_view(adoptions@)) {
            Ok(after) => result is Ok && views(final(pools)@) == after,
            Err(error) => result matches Err(e) && e@ == error,
        },
{
    let ghost before = views(pools@);
    let ghost all = adoptions_view(adoptions@);
    let mut i: usize = 0;
    assert(all.take(0) =~= Seq::<(Seq<char>, i64, u64)>::empty());
    while i < adoptions.len()
        invariant
            i <= adoptions@.len(),
            all == adoptions_view(adoptions@),
            before == views(old(pools)@),
            adopted(before, all.take(i as int)) == Ok::<Seq<PoolView>, ErrorView>(views(pools@)),
        decreases adoptions.len() - i,
    {
        let ghost so_far = views(pools@);
        let epoch: i64 = adoptions[i].1;
        let consumed: u64 = adoptions[i].2;
        assert(all.take(i + 1).drop_last() =~= all.take(i as int));
        assert(all.take(i + 1).last() == (adoptions@[i as int].0@, epoch, consumed));
        if consumed > i64::MAX as u64 {
            proof {
                lemma_adopted_fails(before, all, i + 1);
            }
            return Err(LedgerError::Overflow);
        }
        let k = match find_pool(pools, adoptions[i].0.as_str(), epoch) {
            None => {
                let mut text = String::from_str("cannot adopt consumption for ");
                text.push_str(adoptions[i].0.as_str());
                text.push_str(" epoch ");
                push_signed(&mut text, epoch);
                text.push_str(": not open");
                proof {
                    lemma_adopted_fails(before, all, i + 1);
                }
                return Err(LedgerError::Integrity(text));
            },
            Some(k) => k,
        };
        assert(so_far[k as int] == pools@[k as int]@);
        if consumed as i64 > pools[k].consumed {
            pools[k].consumed = consumed as i64;
            assert(views(pools@) =~= so_far.update(
                k as int,
                PoolView { consumed: consumed as i64, ..so_far[k as int] },
            ));
        }
        i = i + 1;
    }
    assert(all.take(i as int) =~= all);
    Ok(())
}

impl Ledger {
    /// The mark that must be written and synced outside the ledger before
    /// `adopt_recovered_consumption`, so that the external record stays ahead.
    /// `external` is the external record, or `None` where it is missing or
    /// cannot be read.
    pub fn recovery_anchor(&self, external: Option<HighWaterMark>) -> (result: Result<
        HighWaterMark,
        LedgerError,
    >)
        requires
            self.ok(),
        ensures
            plain(result) == recovery_anchor(self.tables@.meta, external),
    {
        let meta = self.tables.meta;
        let mut generation: i64 = meta.generation;
        let mut cumulative_liability: i64 = meta.cumulative_liability;
        match external {
            Some(mark) => {
                if mark.generation > generation {
                    generation = mark.generation;
                }
                if mark.cumulative_liability > cumulative_liability {
                    cumulative_liability = mark.cumulative_liability;
                }
            },
            None => {},
        }
        match generation.checked_add(1) {
            None => Err(LedgerError::Overflow),
            Some(generation) => Ok(
                HighWaterMark { generation, cumulative_liability, last_reservation: 0 },
            ),
        }
    }

    /// Adopts per-pool consumption recovered from the provider's usage
    /// reporting. The caller is responsible for having obtained two agreeing
    /// readings far enough apart, and for having written the recovery anchor
    /// for the same external record first. Recorded consumption only ever
    /// rises.
    ///
    /// This is the one deliberate exception to "usage reporting never reopens
    /// capacity": it marks an untrusted ledger trusted. A ledger recovered
    /// this way carries no fail-closed guarantee, because reporting lag is
    /// absorbed rather than excluded.
    pub fn adopt_recovered_consumption(
        &mut self,
        adoptions: &[(String, i64, u64)],
        external: Option<HighWaterMark>,
    ) -> (result: Result<(), LedgerError>)
        requires
            old(self).ok(),
        ensures
            final(self).ok(),
            final(self).trust == if result is Ok {
                TrustVerdict::Trusted
            } else {
                old(self).trust
            },
            committed(
                old(self).tables@,
                final(self).tables@,
                result,
                adoption_outcome(old(self).tables@, adoptions_view(adoptions@), external),
            ),
    {
        proof {
            adoption_only_raises_consumption(self.tables@, adoptions_view(adoptions@), external);
        }
        let anchor = match self.recovery_anchor(external) {
            Err(error) => return Err(error),
            Ok(anchor) => anchor,
        };
        let mut pools = copy_pools(&self.tables.pools);
        match adopt_pools(&mut pools, adoptions) {
            Err(error) => return Err(error),
            Ok(()) => {},
        }
        self.tables.pools = pools;
        self.tables.meta.generation = anchor.generation;
        self.tables.meta.cumulative_liability = anchor.cumulative_liability;
        self.trust = TrustVerdict::Trusted;
        Ok(())
    }
}

/// Law: what a rollover carries. Every row it adds continues the newest row of
/// a group that had not ended, in the new day, with the same root, pool,
/// liability, state and response id, and as it was asked for; the rows that
/// were there stay, and every pool that is opened has its first grant.
pub proof fn what_a_rollover_carries(
    t: TablesView,
    new_epoch: i64,
    grants: Seq<(Seq<char>, u64)>,
    i: int,
)
    requires
        tables_ok(t),
        new_epoch > t.meta.current_epoch,
    ensures
        rollover_outcome(t, new_epoch, grants) matches Ok((_, after)) ==> {
            &&& t.rows.len() <= after.rows.len()
            &&& 0 <= i < t.rows.len() ==> after.rows[i] == t.rows[i]
            &&& t.rows.len() <= i < after.rows.len() ==> exists|k: int|
                {
                    &&& 0 <= k < t.rows.len()
                    &&& active((#[trigger] t.rows[k]).state)
                    &&& newest(t.rows, k)
                    &&& after.rows[i] == (RowView {
                        id: after.rows[i].id,
                        epoch: new_epoch,
                        settled: None,
                        ..t.rows[k]
                    })
                }
            &&& t.pools.len() <= i < after.pools.len() ==> after.pools[i].epoch == new_epoch
                && grant_of(grants, after.pools[i].pool_id) == Some(after.pools[i].granted as u64)
        },
{
    if let Ok((_, after)) = rollover_outcome(t, new_epoch, grants) {
        let current = t.meta.current_epoch;
        lemma_opened(t.pools, grants, new_epoch, current);
        lemma_opened_grants(t.pools, grants, new_epoch, current);
        let pools = opened(t.pools, grants, new_epoch)->Ok_0;
        lemma_rows_keep_pools(t, pools);
        lemma_carried(pools, t.rows, t.rows.len() as int, new_epoch, current);
        reveal(appended);
        if t.rows.len() <= i < after.rows.len() {
            assert(succeeds(t.rows, t.rows.len() as int, after.rows[i], new_epoch));
            let k = choose|k: int|
                0 <= k < t.rows.len() && carries(t.rows, k) && after.rows[i] == carried_row(
                    #[trigger] t.rows[k],
                    after.rows[i].id,
                    new_epoch,
                );
            assert(active(t.rows[k].state));
        }
        if t.pools.len() <= i < after.pools.len() {
            assert(after.pools[i].pool_id == pools[i].pool_id);
            assert(pools[i].epoch == new_epoch);
        }
    }
}

/// Law: the grant of a pool is the first that is given under its name.
pub proof fn a_pool_has_its_first_grant(grants: Seq<(Seq<char>, u64)>, pool_id: Seq<char>, at: int)
    requires
        0 <= at <= grants.len(),
        forall|k: int| 0 <= k < at ==> (#[trigger] grants[k]).0 != pool_id,
        at < grants.len() ==> grants[at].0 == pool_id,
    ensures
        grant_of(grants, pool_id) == (if at < grants.len() {
            Some(grants[at].1)
        } else {
            None
        }),
    decreases grants.len(),
{
    if grants.len() > 0 {
        let front = grants.drop_last();
        if at < grants.len() {
            if at < front.len() {
                assert forall|k: int| 0 <= k < at implies (#[trigger] front[k]).0 != pool_id by {
                    assert(grants[k].0 != pool_id);
                }
                a_pool_has_its_first_grant(front, pool_id, at);
            } else {
                assert forall|k: int| 0 <= k < front.len() implies (#[trigger] front[k]).0
                    != pool_id by {
                    assert(grants[k].0 != pool_id);
                }
                a_pool_has_its_first_grant(front, pool_id, front.len() as int);
            }
        } else {
            assert forall|k: int| 0 <= k < front.len() implies (#[trigger] front[k]).0
                != pool_id by {
                assert(grants[k].0 != pool_id);
            }
            a_pool_has_its_first_grant(front, pool_id, front.len() as int);
            assert(grants[grants.len() - 1].0 != pool_id);
        }
    }
}

} // verus!
