//! Opening the ledger: integrity, trust, and what the previous run left
//! behind.
use vstd::prelude::*;
use vstd::string::*;

use crate::error::{plain, ErrorView, LedgerError};
use crate::hwm::HighWaterMark;
use crate::ledger::Ledger;
use crate::state::{active, maybe_sent, State};
use crate::tables::{
    books_balance, copy_pools, counters_ok, find_pool, groups_agree, has_pool, has_root, held,
    held_term, inputs_ok, lemma_pool_index, lemma_rooted_extends, lemma_total_le, lemma_total_same,
    lemma_total_splits, lemma_total_zero, overrun, overrun_term, pool_index, pools_ok, rooted,
    row_ok, rows_ok, same_grants, same_pool, sound, spent, spent_term, tables_ok, tallied, total,
    views, within_grants, CounterRow, PoolRow, PoolView, ReservationRow, RowView, SafetyRow, Tables,
    TablesView,
};
use crate::text::{decimal_text, push_decimal, str_eq};
use crate::transitions::{
    adjust_pool, adjusted, committed, find_row, group_disagrees, head_index, lemma_head_index,
    row_index,
};
use crate::trust::{
    assess_found, assessment_of, unknown, Assessment, LedgerMeta, TrustVerdict, UnknownReason,
};

verus! {

// ---------------------------------------------------------------------------
// Integrity.

/// A group's first row, whose group disagrees.
pub open spec fn heads_split_group(rows: Seq<RowView>, i: int) -> bool {
    head_index(rows, rows[i].root_id, 0) == i && group_disagrees(rows, i)
}

/// How many groups with a first row among the first `n` disagree.
pub open spec fn split_groups(rows: Seq<RowView>, n: int) -> nat
    decreases n,
{
    if n <= 0 {
        0
    } else {
        split_groups(rows, n - 1) + if heads_split_group(rows, n - 1) {
            1nat
        } else {
            0nat
        }
    }
}

/// How many of the first `n` pool days reserve something else than their
/// active rows hold.
pub open spec fn mismatched(pools: Seq<PoolView>, rows: Seq<RowView>, n: int) -> nat
    decreases n,
{
    if n <= 0 {
        0
    } else {
        mismatched(pools, rows, n - 1) + if pools[n - 1].reserved != held(
            rows,
            pools[n - 1].pool_id,
            pools[n - 1].epoch,
        ) {
            1nat
        } else {
            0nat
        }
    }
}

pub open spec fn split_text(n: nat) -> Seq<char> {
    decimal_text(n) + " reservation groups disagree internally"@
}

pub open spec fn mismatch_text(n: nat) -> Seq<char> {
    decimal_text(n)
        + " pool epochs have a reserved total that does not match their active reservations"@
}

/// What the integrity check finds.
pub open spec fn integrity(t: TablesView) -> Result<(), ErrorView> {
    let split = split_groups(t.rows, t.rows.len() as int);
    let wrong = mismatched(t.pools, t.rows, t.pools.len() as int);
    if split > 0 {
        Err(ErrorView::Integrity(split_text(split)))
    } else if wrong > 0 {
        Err(ErrorView::Integrity(mismatch_text(wrong)))
    } else {
        Ok(())
    }
}

proof fn lemma_no_split_groups(rows: Seq<RowView>, n: int)
    requires
        0 <= n <= rows.len(),
    ensures
        split_groups(rows, n) == 0 <==> forall|i: int|
            0 <= i < n ==> !#[trigger] heads_split_group(rows, i),
    decreases n,
{
    if n > 0 {
        lemma_no_split_groups(rows, n - 1);
    }
}

proof fn lemma_none_mismatched(pools: Seq<PoolView>, rows: Seq<RowView>, n: int)
    requires
        0 <= n <= pools.len(),
    ensures
        mismatched(pools, rows, n) == 0 <==> forall|i: int|
            0 <= i < n ==> (#[trigger] pools[i]).reserved == held(
                rows,
                pools[i].pool_id,
                pools[i].epoch,
            ),
    decreases n,
{
    if n > 0 {
        lemma_none_mismatched(pools, rows, n - 1);
    }
}

/// Law: the integrity check passes exactly where every group agrees and every
/// stored total matches.
pub proof fn integrity_is_agreement_and_balance(t: TablesView)
    ensures
        integrity(t) is Ok <==> groups_agree(t.rows) && books_balance(t.pools, t.rows),
{
    let n = t.rows.len() as int;
    lemma_no_split_groups(t.rows, n);
    lemma_none_mismatched(t.pools, t.rows, t.pools.len() as int);
    if groups_agree(t.rows) {
        assert forall|i: int| 0 <= i < n implies !#[trigger] heads_split_group(t.rows, i) by {}
    }
    if split_groups(t.rows, n) == 0 {
        assert forall|i: int, j: int|
            0 <= i < t.rows.len() && 0 <= j < t.rows.len() && (#[trigger] t.rows[i]).root_id == (
            #[trigger] t.rows[j]).root_id implies t.rows[i].state == t.rows[j].state
            && t.rows[i].liability == t.rows[j].liability by {
            lemma_head_index(t.rows, t.rows[i].root_id, 0, i);
            let h = head_index(t.rows, t.rows[i].root_id, 0);
            assert(!heads_split_group(t.rows, h));
        }
    }
}

fn is_head(rows: &Vec<ReservationRow>, i: usize) -> (yes: bool)
    requires
        i < rows@.len(),
    ensures
        yes == (head_index(views(rows@), rows@[i as int].root_id, 0) == i),
{
    let ghost all = views(rows@);
    let root: i64 = rows[i].root_id;
    assert(all[i as int] == rows@[i as int]@);
    proof {
        lemma_head_index(all, root, 0, i as int);
    }
    let mut j: usize = 0;
    while j < i
        invariant
            j <= i < rows@.len(),
            all == views(rows@),
            root == rows@[i as int].root_id,
            all[i as int].root_id == root,
            head_index(all, root, j as int) == head_index(all, root, 0),
        decreases i - j,
    {
        assert(all[j as int] == rows@[j as int]@);
        if rows[j].root_id == root {
            return false;
        }
        j = j + 1;
    }
    true
}

fn group_splits(rows: &Vec<ReservationRow>, head: usize) -> (yes: bool)
    requires
        head < rows@.len(),
    ensures
        yes == group_disagrees(views(rows@), head as int),
{
    let ghost all = views(rows@);
    let mut j: usize = 0;
    while j < rows.len()
        invariant
            head < rows@.len(),
            j <= rows@.len(),
            all == views(rows@),
            forall|m: int|
                0 <= m < j && (#[trigger] all[m]).root_id == all[head as int].root_id
                    ==> all[m].state == all[head as int].state && all[m].liability
                    == all[head as int].liability,
        decreases rows.len() - j,
    {
        assert(all[j as int] == rows@[j as int]@ && all[head as int] == rows@[head as int]@);
        if rows[j].root_id == rows[head].root_id && (rows[j].state != rows[head].state
            || rows[j].liability != rows[head].liability) {
            return true;
        }
        j = j + 1;
    }
    false
}

/// The liabilities that a pool day's active rows hold.
fn held_total(rows: &Vec<ReservationRow>, pool_id: &str, epoch: i64) -> (sum: i128)
    ensures
        sum == held(views(rows@), pool_id@, epoch),
{
    let ghost all = views(rows@);
    let mut sum: i128 = 0;
    let mut i: usize = 0;
    assert(all.take(0) =~= Seq::<RowView>::empty());
    while i < rows.len()
        invariant
            i <= rows@.len(),
            all == views(rows@),
            sum == held(all.take(i as int), pool_id@, epoch),
            -(i as int) * 0x8000_0000_0000_0000 <= sum <= i * 0x8000_0000_0000_0000,
        decreases rows.len() - i,
    {
        let row = &rows[i];
        assert(all.take(i + 1).drop_last() =~= all.take(i as int));
        assert(all.take(i + 1).last() == row@);
        if row.epoch == epoch && row.state.is_active() && str_eq(row.pool_id.as_str(), pool_id) {
            sum = sum + row.liability as i128;
        }
        i = i + 1;
    }
    assert(all.take(i as int) =~= all);
    sum
}

impl Ledger {
    /// Every group agrees on its state, and each stored `reserved` equals the
    /// liabilities of the active rows it summarises.
    pub fn check_integrity(&self) -> (result: Result<(), LedgerError>)
        ensures
            plain(result) == integrity(self.tables@),
    {
        check_tables(&self.tables)
    }
}

fn check_tables(tables: &Tables) -> (result: Result<(), LedgerError>)
    ensures
        plain(result) == integrity(tables@),
{
    let ghost rows = views(tables.rows@);
    let ghost pools = views(tables.pools@);
    let mut split: u64 = 0;
    let mut i: usize = 0;
    while i < tables.rows.len()
        invariant
            i <= tables.rows@.len(),
            rows == views(tables.rows@),
            split <= i,
            split == split_groups(rows, i as int),
        decreases tables.rows.len() - i,
    {
        assert(rows[i as int] == tables.rows@[i as int]@);
        if is_head(&tables.rows, i) && group_splits(&tables.rows, i) {
            split = split + 1;
        }
        i = i + 1;
    }
    if split > 0 {
        let mut text = String::new();
        push_decimal(&mut text, split as u128);
        text.push_str(" reservation groups disagree internally");
        assert(text@ =~= split_text(split as nat));
        return Err(LedgerError::Integrity(text));
    }
    let mut wrong: u64 = 0;
    let mut k: usize = 0;
    while k < tables.pools.len()
        invariant
            k <= tables.pools@.len(),
            rows == views(tables.rows@),
            pools == views(tables.pools@),
            wrong <= k,
            wrong == mismatched(pools, rows, k as int),
        decreases tables.pools.len() - k,
    {
        let pool = &tables.pools[k];
        assert(pools[k as int] == pool@);
        if held_total(&tables.rows, pool.pool_id.as_str(), pool.epoch) != pool.reserved as i128 {
            wrong = wrong + 1;
        }
        k = k + 1;
    }
    if wrong > 0 {
        let mut text = String::new();
        push_decimal(&mut text, wrong as u128);
        text.push_str(
            " pool epochs have a reserved total that does not match their active reservations",
        );
        assert(text@ =~= mismatch_text(wrong as nat));
        return Err(LedgerError::Integrity(text));
    }
    Ok(())
}

// ---------------------------------------------------------------------------
// Normalization.

/// Only a consistent external record tells a row that was never dispatched
/// from one that was.
pub open spec fn interpretable(verdict: TrustVerdict) -> bool {
    verdict is Trusted || verdict == TrustVerdict::Unknown(UnknownReason::UncleanShutdown)
}

/// The state the previous run's leftovers are given.
pub open spec fn settled_down(row: RowView, promote: Option<i64>, interpretable: bool) -> State {
    match row.state {
        State::Reserved => if promote == Some(row.root_id) || !interpretable {
            State::DispatchedIdUnknown
        } else {
            State::ReleasedUnsent
        },
        State::Dispatching => State::DispatchedIdUnknown,
        other => other,
    }
}

pub open spec fn settled_rows(
    rows: Seq<RowView>,
    promote: Option<i64>,
    interpretable: bool,
) -> Seq<RowView> {
    Seq::new(
        rows.len(),
        |i: int|
            RowView { state: settled_down(rows[i], promote, interpretable), ..rows[i] },
    )
}

/// The pools once the rows known never to have been sent are released.
pub open spec fn released_pools(
    pools: Seq<PoolView>,
    rows: Seq<RowView>,
    promote: Option<i64>,
    interpretable: bool,
) -> Result<Seq<PoolView>, ErrorView>
    decreases rows.len(),
{
    if rows.len() == 0 {
        Ok(pools)
    } else {
        match released_pools(pools, rows.drop_last(), promote, interpretable) {
            Err(error) => Err(error),
            Ok(so_far) => {
                let row = rows.last();
                if row.state is Reserved && settled_down(row, promote, interpretable)
                    is ReleasedUnsent {
                    adjusted(so_far, row.pool_id, row.epoch, -row.liability, 0)
                } else {
                    Ok(so_far)
                }
            },
        }
    }
}

/// The tables once what the previous run left behind has settled. A promoted
/// dispatch brings the ledger up to the external record.
pub open spec fn normalize_outcome(
    t: TablesView,
    assessment: Assessment,
    external: Option<HighWaterMark>,
) -> Result<TablesView, ErrorView> {
    let promote = if external is Some {
        assessment.promote_to_id_unknown
    } else {
        None
    };
    let clear = interpretable(assessment.verdict);
    match released_pools(t.pools, t.rows, promote, clear) {
        Err(error) => Err(error),
        Ok(pools) => Ok(
            TablesView {
                pools,
                rows: settled_rows(t.rows, promote, clear),
                meta: LedgerMeta {
                    generation: if promote is Some {
                        external->0.generation
                    } else {
                        t.meta.generation
                    },
                    cumulative_liability: if promote is Some {
                        external->0.cumulative_liability
                    } else {
                        t.meta.cumulative_liability
                    },
                    clean_shutdown: false,
                    ..t.meta
                },
                ..t
            },
        ),
    }
}

/// What a released row gives back of a pool day.
pub open spec fn release_term(
    promote: Option<i64>,
    interpretable: bool,
    pool_id: Seq<char>,
    epoch: i64,
) -> spec_fn(RowView) -> int {
    |row: RowView|
        if row.state is Reserved && settled_down(row, promote, interpretable) is ReleasedUnsent
            && row.pool_id == pool_id && row.epoch == epoch {
            row.liability as int
        } else {
            0
        }
}

proof fn lemma_released_pools(
    pools: Seq<PoolView>,
    rows: Seq<RowView>,
    promote: Option<i64>,
    interpretable: bool,
    current_epoch: i64,
)
    requires
        pools_ok(pools, current_epoch),
        released_pools(pools, rows, promote, interpretable) is Ok,
    ensures
        ({
            let after = released_pools(pools, rows, promote, interpretable)->Ok_0;
            &&& pools_ok(after, current_epoch)
            &&& after.len() == pools.len()
            &&& forall|i: int|
                0 <= i < pools.len() ==> {
                    &&& (#[trigger] after[i]).pool_id == pools[i].pool_id
                    &&& after[i].epoch == pools[i].epoch
                    &&& after[i].granted == pools[i].granted
                    &&& after[i].consumed == pools[i].consumed
                    &&& after[i].reserved == pools[i].reserved - total(
                        rows,
                        release_term(promote, interpretable, pools[i].pool_id, pools[i].epoch),
                    )
                }
        }),
    decreases rows.len(),
{
    if rows.len() > 0 {
        lemma_released_pools(pools, rows.drop_last(), promote, interpretable, current_epoch);
        let so_far = released_pools(pools, rows.drop_last(), promote, interpretable)->Ok_0;
        let after = released_pools(pools, rows, promote, interpretable)->Ok_0;
        let row = rows.last();
        if row.state is Reserved && settled_down(row, promote, interpretable) is ReleasedUnsent {
            lemma_pool_index(so_far, row.pool_id, row.epoch);
            let k = pool_index(so_far, row.pool_id, row.epoch)->0;
            assert forall|i: int| 0 <= i < pools.len() implies {
                &&& (#[trigger] after[i]).pool_id == pools[i].pool_id
                &&& after[i].epoch == pools[i].epoch
                &&& after[i].granted == pools[i].granted
                &&& after[i].consumed == pools[i].consumed
                &&& after[i].reserved >= 0
                &&& after[i].reserved == pools[i].reserved - total(
                    rows,
                    release_term(promote, interpretable, pools[i].pool_id, pools[i].epoch),
                )
            } by {
                if i < k {
                    assert(!same_pool(so_far[i], so_far[k]));
                } else if k < i {
                    assert(!same_pool(so_far[k], so_far[i]));
                }
            }
            assert forall|i: int, j: int| 0 <= i < j < after.len() implies !same_pool(
                #[trigger] after[i],
                #[trigger] after[j],
            ) by {
                assert(!same_pool(so_far[i], so_far[j]));
            }
        }
    }
}

/// Law: normalization leaves the tables in the shape the schema keeps.
pub proof fn normalizing_keeps_the_shape(
    t: TablesView,
    assessment: Assessment,
    external: Option<HighWaterMark>,
)
    requires
        tables_ok(t),
        external matches Some(mark) ==> mark.generation >= 0 && mark.cumulative_liability >= 0,
    ensures
        normalize_outcome(t, assessment, external) matches Ok(after) ==> tables_ok(after),
{
    if let Ok(after) = normalize_outcome(t, assessment, external) {
        let promote = if external is Some {
            assessment.promote_to_id_unknown
        } else {
            None
        };
        let epoch = t.meta.current_epoch;
        lemma_released_pools(t.pools, t.rows, promote, interpretable(assessment.verdict), epoch);
        assert forall|i: int| 0 <= i < after.rows.len() implies row_ok(
            #[trigger] after.rows[i],
            epoch,
        ) && has_pool(after.pools, after.rows[i].pool_id, after.rows[i].epoch) by {
            assert(row_ok(t.rows[i], epoch));
            let k = choose|k: int|
                0 <= k < t.pools.len() && (#[trigger] t.pools[k]).pool_id == t.rows[i].pool_id
                    && t.pools[k].epoch == t.rows[i].epoch;
            assert(after.pools[k].pool_id == after.rows[i].pool_id && after.pools[k].epoch
                == after.rows[i].epoch);
        }
        assert(rows_ok(after.rows, after.pools, epoch));
        lemma_rooted_extends(t.rows, after.rows);
    }
}

/// Law: normalization keeps the books in order, the tally exact and every pool
/// within its grant.
pub proof fn normalizing_keeps_the_books(
    t: TablesView,
    assessment: Assessment,
    external: Option<HighWaterMark>,
)
    requires
        tables_ok(t),
        sound(t),
    ensures
        normalize_outcome(t, assessment, external) matches Ok(after) ==> {
            &&& sound(after)
            &&& same_grants(t.pools, after.pools)
            &&& tallied(t.pools, t.rows) ==> tallied(after.pools, after.rows)
            &&& within_grants(t.pools, t.rows) ==> within_grants(after.pools, after.rows)
        },
{
    if let Ok(after) = normalize_outcome(t, assessment, external) {
        let promote = if external is Some {
            assessment.promote_to_id_unknown
        } else {
            None
        };
        let clear = interpretable(assessment.verdict);
        lemma_released_pools(t.pools, t.rows, promote, clear, t.meta.current_epoch);
        let none = |row: RowView| 0int;
        lemma_total_zero(t.rows, none);
        assert forall|i: int| 0 <= i < after.pools.len() implies {
            &&& (#[trigger] after.pools[i]).reserved == held(
                after.rows,
                after.pools[i].pool_id,
                after.pools[i].epoch,
            )
            &&& spent(after.rows, after.pools[i].pool_id, after.pools[i].epoch) == spent(
                t.rows,
                t.pools[i].pool_id,
                t.pools[i].epoch,
            )
            &&& overrun(after.rows, after.pools[i].pool_id, after.pools[i].epoch) == overrun(
                t.rows,
                t.pools[i].pool_id,
                t.pools[i].epoch,
            )
            &&& after.pools[i].consumed == t.pools[i].consumed
            &&& after.pools[i].reserved <= t.pools[i].reserved
        } by {
            let p = t.pools[i];
            assert forall|j: int| 0 <= j < after.rows.len() implies overrun_term(
                p.pool_id,
                p.epoch,
            )(#[trigger] after.rows[j]) == overrun_term(p.pool_id, p.epoch)(t.rows[j]) by {}
            lemma_total_same(after.rows, t.rows, overrun_term(p.pool_id, p.epoch));
            let given_back = release_term(promote, clear, p.pool_id, p.epoch);
            assert forall|j: int| 0 <= j < t.rows.len() implies held_term(p.pool_id, p.epoch)(
                #[trigger] t.rows[j],
            ) == held_term(p.pool_id, p.epoch)(after.rows[j]) + given_back(t.rows[j])
                && given_back(t.rows[j]) >= 0 by {
                assert(row_ok(t.rows[j], t.meta.current_epoch));
            }
            lemma_total_splits(
                t.rows,
                held_term(p.pool_id, p.epoch),
                after.rows,
                held_term(p.pool_id, p.epoch),
                t.rows,
                given_back,
            );
            assert forall|j: int| 0 <= j < after.rows.len() implies spent_term(
                p.pool_id,
                p.epoch,
            )(#[trigger] after.rows[j]) == spent_term(p.pool_id, p.epoch)(t.rows[j]) + none(
                t.rows[j],
            ) by {}
            lemma_total_splits(
                after.rows,
                spent_term(p.pool_id, p.epoch),
                t.rows,
                spent_term(p.pool_id, p.epoch),
                t.rows,
                none,
            );
            lemma_total_le(t.rows, none, given_back);
        }
        assert forall|i: int, j: int|
            0 <= i < after.rows.len() && 0 <= j < after.rows.len() && (
            #[trigger] after.rows[i]).root_id == (#[trigger] after.rows[j]).root_id implies
            after.rows[i].state == after.rows[j].state && after.rows[i].liability
            == after.rows[j].liability by {
            assert(t.rows[i].root_id == t.rows[j].root_id);
        }
    }
}

/// Law: after normalization nothing is left reserved or half-dispatched, a
/// request that may have been sent still counts as possibly sent, and only a
/// row that a consistent external record shows was never dispatched is
/// released.
pub proof fn normalizing_releases_only_what_was_never_sent(
    t: TablesView,
    assessment: Assessment,
    external: Option<HighWaterMark>,
    i: int,
)
    requires
        0 <= i < t.rows.len(),
    ensures
        normalize_outcome(t, assessment, external) matches Ok(after) ==> {
            &&& !(after.rows[i].state is Reserved) && !(after.rows[i].state is Dispatching)
            &&& maybe_sent(t.rows[i].state) ==> maybe_sent(after.rows[i].state)
            &&& !active(t.rows[i].state) ==> after.rows[i] == t.rows[i]
            &&& t.rows[i].state is Reserved && after.rows[i].state is ReleasedUnsent
                ==> interpretable(assessment.verdict)
        },
{
}

/// Law: normalizing what has been normalized changes nothing but the shutdown
/// marker, which stays cleared.
pub proof fn normalizing_is_idempotent(
    t: TablesView,
    assessment: Assessment,
    external: Option<HighWaterMark>,
    again: Assessment,
)
    requires
        again.promote_to_id_unknown is None,
    ensures
        normalize_outcome(t, assessment, external) matches Ok(after) ==> normalize_outcome(
            after,
            again,
            None,
        ) == Ok::<TablesView, ErrorView>(after),
{
    if let Ok(after) = normalize_outcome(t, assessment, external) {
        let clear = interpretable(again.verdict);
        lemma_nothing_to_release(after.pools, after.rows, clear);
        assert(settled_rows(after.rows, None, clear) =~= after.rows);
    }
}

proof fn lemma_nothing_to_release(pools: Seq<PoolView>, rows: Seq<RowView>, interpretable: bool)
    requires
        forall|i: int| 0 <= i < rows.len() ==> !((#[trigger] rows[i]).state is Reserved),
    ensures
        released_pools(pools, rows, None, interpretable) == Ok::<Seq<PoolView>, ErrorView>(pools),
    decreases rows.len(),
{
    if rows.len() > 0 {
        assert forall|i: int| 0 <= i < rows.drop_last().len() implies !((
        #[trigger] rows.drop_last()[i]).state is Reserved) by {
            assert(rows.drop_last()[i] == rows[i]);
        }
        lemma_nothing_to_release(pools, rows.drop_last(), interpretable);
        assert(rows.last() == rows[rows.len() - 1]);
    }
}

proof fn lemma_released_pools_fails(
    pools: Seq<PoolView>,
    rows: Seq<RowView>,
    n: int,
    promote: Option<i64>,
    interpretable: bool,
)
    requires
        0 <= n <= rows.len(),
        released_pools(pools, rows.take(n), promote, interpretable) is Err,
    ensures
        released_pools(pools, rows, promote, interpretable) == released_pools(
            pools,
            rows.take(n),
            promote,
            interpretable,
        ),
    decreases rows.len() - n,
{
    if n < rows.len() {
        assert(rows.take(n + 1).drop_last() =~= rows.take(n));
        lemma_released_pools_fails(pools, rows, n + 1, promote, interpretable);
    } else {
        assert(rows.take(n) =~= rows);
    }
}

fn next_state(row: &ReservationRow, promote: Option<i64>, clear: bool) -> (state: State)
    ensures
        state == settled_down(row@, promote, clear),
{
    match row.state {
        State::Reserved => {
            let promoted = match promote {
                Some(root) => root == row.root_id,
                None => false,
            };
            if promoted || !clear {
                State::DispatchedIdUnknown
            } else {
                State::ReleasedUnsent
            }
        },
        State::Dispatching => State::DispatchedIdUnknown,
        other => other,
    }
}

impl Ledger {
    /// Settles what the previous run left behind. Only when the external
    /// record is consistent can a reserved row be known never to have been
    /// dispatched; otherwise every non-terminal row is treated as sent.
    pub fn normalize_after_restart(
        &mut self,
        assessment: &Assessment,
        external: Option<HighWaterMark>,
    ) -> (result: Result<(), LedgerError>)
        requires
            old(self).ok(),
            external matches Some(mark) ==> mark.generation >= 0 && mark.cumulative_liability >= 0,
        ensures
            final(self).ok(),
            final(self).trust == old(self).trust,
            committed(
                old(self).tables@,
                final(self).tables@,
                result,
                normalize_outcome(old(self).tables@, *assessment, external),
            ),
    {
        let ghost before = self.tables@;
        proof {
            normalizing_keeps_the_shape(before, *assessment, external);
        }
        let clear = matches!(
            assessment.verdict,
            TrustVerdict::Trusted | TrustVerdict::Unknown(UnknownReason::UncleanShutdown)
        );
        let promote: Option<i64> = if external.is_some() {
            assessment.promote_to_id_unknown
        } else {
            None
        };
        let mut pools = copy_pools(&self.tables.pools);
        let mut i: usize = 0;
        assert(before.rows.take(0) =~= Seq::<RowView>::empty());
        while i < self.tables.rows.len()
            invariant
                i <= self.tables.rows@.len(),
                self.tables@ == before,
                self.trust == old(self).trust,
                before == old(self).tables@,
                tables_ok(before),
                clear == interpretable(assessment.verdict),
                promote == if external is Some {
                    assessment.promote_to_id_unknown
                } else {
                    None
                },
                released_pools(before.pools, before.rows.take(i as int), promote, clear) == Ok::<
                    Seq<PoolView>,
                    ErrorView,
                >(views(pools@)),
            decreases self.tables.rows.len() - i,
        {
            let row = &self.tables.rows[i];
            assert(before.rows[i as int] == row@);
            assert(row_ok(before.rows[i as int], before.meta.current_epoch));
            assert(before.rows.take(i + 1).drop_last() =~= before.rows.take(i as int));
            assert(before.rows.take(i + 1).last() == row@);
            if row.state == State::Reserved && next_state(row, promote, clear)
                == State::ReleasedUnsent {
                let given_back: i64 = -row.liability;
                match adjust_pool(&mut pools, row.pool_id.as_str(), row.epoch, given_back, 0) {
                    Ok(()) => {},
                    Err(error) => {
                        proof {
                            lemma_released_pools_fails(
                                before.pools,
                                before.rows,
                                i + 1,
                                promote,
                                clear,
                            );
                        }
                        return Err(error);
                    },
                }
            }
            i = i + 1;
        }
        assert(before.rows.take(i as int) =~= before.rows);
        let ghost after = settled_rows(before.rows, promote, clear);
        let mut j: usize = 0;
        while j < self.tables.rows.len()
            invariant
                j <= self.tables.rows@.len(),
                self.tables.rows@.len() == before.rows.len(),
                self.trust == old(self).trust,
                self.tables@ == (TablesView { rows: views(self.tables.rows@), ..before }),
                after == settled_rows(before.rows, promote, clear),
                forall|k: int| 0 <= k < j ==> (#[trigger] self.tables.rows@[k])@ == after[k],
                forall|k: int|
                    j <= k < before.rows.len() ==> (#[trigger] self.tables.rows@[k])@
                        == before.rows[k],
            decreases self.tables.rows.len() - j,
        {
            assert(self.tables.rows@[j as int]@ == before.rows[j as int]);
            let state = next_state(&self.tables.rows[j], promote, clear);
            self.tables.rows[j].state = state;
            assert(self.tables.rows@[j as int]@ == after[j as int]);
            j = j + 1;
        }
        assert(views(self.tables.rows@) =~= after);
        self.tables.pools = pools;
        match (promote, external) {
            (Some(_), Some(mark)) => {
                self.tables.meta.generation = mark.generation;
                self.tables.meta.cumulative_liability = mark.cumulative_liability;
            },
            _ => {},
        }
        self.tables.meta.clean_shutdown = false;
        Ok(())
    }
}

// ---------------------------------------------------------------------------
// The shape of stored tables.

fn pools_fit(pools: &Vec<PoolRow>, current_epoch: i64) -> (yes: bool)
    ensures
        yes == pools_ok(views(pools@), current_epoch),
{
    let ghost all = views(pools@);
    let mut i: usize = 0;
    while i < pools.len()
        invariant
            i <= pools@.len(),
            all == views(pools@),
            forall|k: int|
                0 <= k < i ==> {
                    &&& (#[trigger] all[k]).granted >= 0
                    &&& all[k].consumed >= 0
                    &&& all[k].reserved >= 0
                    &&& all[k].epoch <= current_epoch
                },
            forall|k: int, m: int|
                0 <= k < m < i ==> !same_pool(#[trigger] all[k], #[trigger] all[m]),
        decreases pools.len() - i,
    {
        let pool = &pools[i];
        assert(all[i as int] == pool@);
        if pool.granted < 0 || pool.consumed < 0 || pool.reserved < 0 || pool.epoch
            > current_epoch {
            return false;
        }
        let mut j: usize = 0;
        while j < i
            invariant
                j <= i < pools@.len(),
                all == views(pools@),
                all[i as int] == pool@,
                *pool == pools@[i as int],
                forall|k: int| 0 <= k < j ==> !same_pool(#[trigger] all[k], all[i as int]),
            decreases i - j,
        {
            assert(all[j as int] == pools@[j as int]@);
            if pools[j].epoch == pool.epoch && str_eq(
                pools[j].pool_id.as_str(),
                pool.pool_id.as_str(),
            ) {
                assert(same_pool(all[j as int], all[i as int]));
                return false;
            }
            j = j + 1;
        }
        i = i + 1;
    }
    true
}

fn row_fits(row: &ReservationRow, current_epoch: i64) -> (yes: bool)
    ensures
        yes == row_ok(row@, current_epoch),
{
    if row.root_id > row.id || row.liability < 0 || row.epoch > current_epoch {
        return false;
    }
    let amount_fits = match row.settled {
        Some(amount) => row.state == State::Settled && amount >= 0,
        None => row.state != State::Settled,
    };
    let id_fits = match row.state {
        State::DispatchedWithId => row.response_id.is_some(),
        State::Settled | State::ConsumedUnrecoverable => true,
        _ => row.response_id.is_none(),
    };
    amount_fits && id_fits
}

fn rows_fit(tables: &Tables) -> (yes: bool)
    ensures
        yes == (rows_ok(tables@.rows, tables@.pools, tables@.meta.current_epoch) && rooted(
            tables@.rows,
        )),
{
    let rows = &tables.rows;
    let epoch: i64 = tables.meta.current_epoch;
    let ghost all = views(rows@);
    let ghost pools = views(tables.pools@);
    let mut i: usize = 0;
    while i < rows.len()
        invariant
            i <= rows@.len(),
            *rows == tables.rows,
            all == views(rows@),
            pools == views(tables.pools@),
            epoch == tables.meta.current_epoch,
            forall|k: int|
                0 <= k < i ==> {
                    &&& row_ok(#[trigger] all[k], epoch)
                    &&& has_pool(pools, all[k].pool_id, all[k].epoch)
                    &&& has_root(all, all[k].root_id)
                },
            forall|k: int, m: int|
                0 <= k < m < i ==> (#[trigger] all[k]).id < (#[trigger] all[m]).id,
            forall|k: int, m: int|
                0 <= k < m < i && all[k].root_id == all[m].root_id ==> (#[trigger] all[k]).epoch < (
                #[trigger] all[m]).epoch,
        decreases rows.len() - i,
    {
        let row = &rows[i];
        assert(all[i as int] == row@);
        if !row_fits(row, epoch) {
            return false;
        }
        proof {
            lemma_pool_index(pools, row.pool_id@, row.epoch);
        }
        if find_pool(&tables.pools, row.pool_id.as_str(), row.epoch).is_none() {
            return false;
        }
        let mut j: usize = 0;
        while j < i
            invariant
                j <= i < rows@.len(),
                *rows == tables.rows,
                all == views(rows@),
                all[i as int] == row@,
                pools == views(tables.pools@),
                epoch == tables.meta.current_epoch,
                forall|k: int| 0 <= k < j ==> (#[trigger] all[k]).id < all[i as int].id,
                forall|k: int|
                    0 <= k < j && all[k].root_id == all[i as int].root_id ==> (
                    #[trigger] all[k]).epoch < all[i as int].epoch,
            decreases i - j,
        {
            assert(all[j as int] == rows@[j as int]@);
            if rows[j].id >= row.id || (rows[j].root_id == row.root_id && rows[j].epoch
                >= row.epoch) {
                return false;
            }
            j = j + 1;
        }
        if !has_first_row(rows, row.root_id) {
            return false;
        }
        i = i + 1;
    }
    true
}

fn has_first_row(rows: &Vec<ReservationRow>, root_id: i64) -> (yes: bool)
    ensures
        yes == has_root(views(rows@), root_id),
{
    let ghost all = views(rows@);
    let mut i: usize = 0;
    while i < rows.len()
        invariant
            i <= rows@.len(),
            all == views(rows@),
            forall|k: int|
                0 <= k < i ==> !((#[trigger] all[k]).id == root_id && all[k].root_id == root_id),
        decreases rows.len() - i,
    {
        assert(all[i as int] == rows@[i as int]@);
        if rows[i].id == root_id && rows[i].root_id == root_id {
            return true;
        }
        i = i + 1;
    }
    false
}

fn inputs_fit(inputs: &Vec<SafetyRow>) -> (yes: bool)
    ensures
        yes == inputs_ok(views(inputs@)),
{
    let ghost all = views(inputs@);
    let mut i: usize = 0;
    while i < inputs.len()
        invariant
            i <= inputs@.len(),
            all == views(inputs@),
            forall|k: int|
                0 <= k < i ==> {
                    &&& (#[trigger] all[k]).ttl_seconds > 0
                    &&& all[k].budget_initial >= 0
                    &&& all[k].budget_remaining >= 0
                },
            forall|k: int, m: int|
                0 <= k < m < i ==> (#[trigger] all[k]).key != (#[trigger] all[m]).key,
        decreases inputs.len() - i,
    {
        let input = &inputs[i];
        assert(all[i as int] == input@);
        if input.ttl_seconds <= 0 || input.budget_initial < 0 || input.budget_remaining < 0 {
            return false;
        }
        let mut j: usize = 0;
        while j < i
            invariant
                j <= i < inputs@.len(),
                all == views(inputs@),
                all[i as int] == input@,
                forall|k: int| 0 <= k < j ==> (#[trigger] all[k]).key != all[i as int].key,
            decreases i - j,
        {
            assert(all[j as int] == inputs@[j as int]@);
            if str_eq(inputs[j].key.as_str(), input.key.as_str()) {
                assert(all[j as int].key == all[i as int].key);
                return false;
            }
            j = j + 1;
        }
        i = i + 1;
    }
    true
}

fn counters_fit(counters: &Vec<CounterRow>) -> (yes: bool)
    ensures
        yes == counters_ok(views(counters@)),
{
    let ghost all = views(counters@);
    let mut i: usize = 0;
    while i < counters.len()
        invariant
            i <= counters@.len(),
            all == views(counters@),
            forall|k: int| 0 <= k < i ==> (#[trigger] all[k]).used >= 0,
            forall|k: int, m: int|
                0 <= k < m < i ==> !((#[trigger] all[k]).provider == (#[trigger] all[m]).provider
                    && all[k].epoch == all[m].epoch),
        decreases counters.len() - i,
    {
        let counter = &counters[i];
        assert(all[i as int] == counter@);
        if counter.used < 0 {
            return false;
        }
        let mut j: usize = 0;
        while j < i
            invariant
                j <= i < counters@.len(),
                all == views(counters@),
                all[i as int] == counter@,
                forall|k: int|
                    0 <= k < j ==> !((#[trigger] all[k]).provider == all[i as int].provider
                        && all[k].epoch == all[i as int].epoch),
            decreases i - j,
        {
            assert(all[j as int] == counters@[j as int]@);
            if counters[j].epoch == counter.epoch && str_eq(
                counters[j].provider.as_str(),
                counter.provider.as_str(),
            ) {
                return false;
            }
            j = j + 1;
        }
        i = i + 1;
    }
    true
}

/// The tables of a ledger that has never been used.
pub open spec fn fresh_tables() -> TablesView {
    TablesView {
        pools: Seq::empty(),
        rows: Seq::empty(),
        meta: LedgerMeta {
            generation: 0,
            cumulative_liability: 0,
            current_epoch: 0,
            clean_shutdown: false,
        },
        inputs: Seq::empty(),
        latches: Seq::empty(),
        counters: Seq::empty(),
        dispatches: Seq::empty(),
    }
}

impl Tables {
    /// The tables of a ledger that has never been used.
    pub fn fresh() -> (tables: Tables)
        ensures
            tables@ == fresh_tables(),
            tables_ok(tables@),
    {
        let tables = Tables {
            pools: Vec::new(),
            rows: Vec::new(),
            meta: LedgerMeta {
                generation: 0,
                cumulative_liability: 0,
                current_epoch: 0,
                clean_shutdown: false,
            },
            inputs: Vec::new(),
            latches: Vec::new(),
            counters: Vec::new(),
            dispatches: Vec::new(),
        };
        assert(tables@.pools =~= fresh_tables().pools);
        assert(tables@.rows =~= fresh_tables().rows);
        assert(tables@.inputs =~= fresh_tables().inputs);
        assert(tables@.latches =~= fresh_tables().latches);
        assert(tables@.counters =~= fresh_tables().counters);
        assert(tables@.dispatches =~= fresh_tables().dispatches);
        tables
    }

    /// Whether stored tables have the shape the schema keeps.
    pub fn fit(&self) -> (yes: bool)
        ensures
            yes == tables_ok(self@),
    {
        pools_fit(&self.pools, self.meta.current_epoch) && rows_fit(self) && self.meta.generation
            >= 0 && self.meta.cumulative_liability >= 0 && inputs_fit(&self.inputs)
            && counters_fit(&self.counters)
    }
}

// ---------------------------------------------------------------------------
// Opening and closing.

/// What the ledger holds under the external record's last reservation.
pub open spec fn last_dispatch(t: TablesView, external: Result<Option<HighWaterMark>, ()>) -> Option<
    (State, i64),
> {
    match external {
        Ok(Some(mark)) => match row_index(t.rows, mark.last_reservation) {
            Some(k) => Some((t.rows[k].state, t.rows[k].liability)),
            None => None,
        },
        _ => None,
    }
}

/// The assessment of the tables against the external record.
pub open spec fn trust_of(t: TablesView, external: Result<Option<HighWaterMark>, ()>) -> Assessment {
    assessment_of(t.meta, external, last_dispatch(t, external))
}

pub open spec fn misshapen_text() -> Seq<char> {
    "a stored row is in a shape the schema should have prevented"@
}

/// Opening the ledger: the assessment and the tables after it.
pub open spec fn open_outcome(t: TablesView, external: Result<Option<HighWaterMark>, ()>) -> Result<
    (Assessment, TablesView),
    ErrorView,
> {
    let assessment = trust_of(t, external);
    let mark = match external {
        Ok(Some(mark)) => Some(mark),
        _ => None,
    };
    if !tables_ok(t) {
        Err(ErrorView::Integrity(misshapen_text()))
    } else if integrity(t) is Err {
        Err(integrity(t)->Err_0)
    } else {
        match normalize_outcome(t, assessment, mark) {
            Err(error) => Err(error),
            Ok(after) => Ok((assessment, after)),
        }
    }
}

impl Ledger {
    /// Verifies the stored tables' shape and integrity, assesses trust against
    /// the external record, and normalizes reservations left by the previous
    /// run. `external` is an error where the record exists but cannot be read.
    pub fn open(tables: Tables, external: Result<Option<HighWaterMark>, ()>) -> (result: Result<
        (Ledger, Assessment),
        LedgerError,
    >)
        requires
            external matches Ok(Some(mark)) ==> mark.generation >= 0 && mark.cumulative_liability
                >= 0,
        ensures
            match open_outcome(tables@, external) {
                Ok((assessment, after)) => result matches Ok((ledger, found)) && found
                    == assessment && ledger.tables@ == after && ledger.trust == assessment.verdict
                    && ledger.ok(),
                Err(error) => result matches Err(e) && e@ == error,
            },
    {
        if !tables.fit() {
            return Err(
                LedgerError::Integrity(
                    String::from_str("a stored row is in a shape the schema should have prevented"),
                ),
            );
        }
        match check_tables(&tables) {
            Err(error) => return Err(error),
            Ok(()) => {},
        }
        let mut ledger = Ledger {
            tables,
            trust: TrustVerdict::Unknown(UnknownReason::Uninitialized),
        };
        let assessment = ledger.assess_trust(external);
        let mark: Option<HighWaterMark> = match external {
            Ok(Some(mark)) => Some(mark),
            _ => None,
        };
        match ledger.normalize_after_restart(&assessment, mark) {
            Err(error) => return Err(error),
            Ok(()) => {},
        }
        ledger.trust = assessment.verdict;
        Ok((ledger, assessment))
    }

    /// Assesses the ledger against the external record.
    pub fn assess_trust(&self, external: Result<Option<HighWaterMark>, ()>) -> (assessment:
        Assessment)
        requires
            self.ok(),
        ensures
            assessment == trust_of(self.tables@, external),
    {
        match external {
            Ok(Some(mark)) => {
                let found: Option<(State, i64)> = match find_row(
                    &self.tables.rows,
                    mark.last_reservation,
                ) {
                    Some(k) => {
                        let row = &self.tables.rows[k];
                        assert(self.tables@.rows[k as int] == row@);
                        Some((row.state, row.liability))
                    },
                    None => None,
                };
                assess_found(self.tables.meta, mark, found)
            },
            Err(_) => Assessment {
                verdict: TrustVerdict::Unknown(UnknownReason::ExternalUnreadable),
                promote_to_id_unknown: None,
            },
            Ok(None) => {
                let reason = if self.tables.meta.generation == 0 {
                    UnknownReason::Uninitialized
                } else {
                    UnknownReason::ExternalMissing
                };
                Assessment {
                    verdict: TrustVerdict::Unknown(reason),
                    promote_to_id_unknown: None,
                }
            },
        }
    }

    /// Marks the shutdown clean. A ledger that fails its integrity check is
    /// never marked clean.
    pub fn mark_clean_shutdown(&mut self) -> (result: Result<(), LedgerError>)
        requires
            old(self).ok(),
        ensures
            final(self).ok(),
            final(self).trust == old(self).trust,
            plain(result) == integrity(old(self).tables@),
            final(self).tables@ == if result is Ok {
                TablesView {
                    meta: LedgerMeta { clean_shutdown: true, ..old(self).tables@.meta },
                    ..old(self).tables@
                }
            } else {
                old(self).tables@
            },
    {
        match self.check_integrity() {
            Err(error) => return Err(error),
            Ok(()) => {},
        }
        self.tables.meta.clean_shutdown = true;
        Ok(())
    }

    /// Closes the ledger, marked clean if its integrity check passes, and
    /// hands out what is to be stored.
    pub fn close(self) -> (result: Result<Tables, LedgerError>)
        requires
            self.ok(),
        ensures
            match integrity(self.tables@) {
                Ok(_) => result matches Ok(tables) && tables@ == (TablesView {
                    meta: LedgerMeta { clean_shutdown: true, ..self.tables@.meta },
                    ..self.tables@
                }) && tables_ok(tables@),
                Err(error) => result matches Err(e) && e@ == error,
            },
    {
        let mut ledger = self;
        match ledger.mark_clean_shutdown() {
            Err(error) => Err(error),
            Ok(()) => Ok(ledger.tables),
        }
    }
}

/// Law: a ledger closed cleanly and reopened against the external record it
/// agrees with is trusted.
pub proof fn a_clean_close_reopens_trusted(t: TablesView, mark: HighWaterMark)
    requires
        mark.generation == t.meta.generation,
        mark.cumulative_liability == t.meta.cumulative_liability,
    ensures
        trust_of(
            TablesView { meta: LedgerMeta { clean_shutdown: true, ..t.meta }, ..t },
            Ok(Some(mark)),
        ).verdict is Trusted,
        trust_of(
            TablesView { meta: LedgerMeta { clean_shutdown: false, ..t.meta }, ..t },
            Ok(Some(mark)),
        ) == unknown(UnknownReason::UncleanShutdown),
{
}

} // verus!
