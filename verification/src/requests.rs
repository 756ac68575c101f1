//! Counting requests, for a provider whose free allowance is denominated in
//! them rather than in tokens.
//!
//! This is deliberately not the reservation ledger's state machine. There,
//! a liability is reserved, released when nothing was sent, and settled from
//! reported usage. Here there is nothing to settle and nothing to release: a
//! request that fails still spends the day's allowance, so the slot is taken
//! before sending and never given back. Being conservative in the same
//! direction as the provider is what keeps the count from running under.
//!
//! Both limits are checked and recorded at once: the day's total, and a short
//! sliding window. Because the window's timestamps are stored, a restart
//! cannot forget requests it made a moment ago and walk straight into the
//! provider's rate limit.
use vstd::prelude::*;
use vstd::string::*;

use crate::error::{ErrorView, LedgerError};
use crate::ledger::Ledger;
use crate::tables::{
    counters_ok, tables_ok, views, CounterRow, CounterView, DispatchRow, DispatchView, TablesView,
};
use crate::text::str_eq;
use crate::transitions::fits;

verus! {

/// The short rate limit a provider enforces alongside the daily one.
#[derive(Debug, Clone, Copy, PartialEq, Eq, Structural)]
pub struct RequestWindow {
    pub max_in_window: u32,
    pub window_seconds: i64,
}

#[derive(Debug, Clone, Copy, PartialEq, Eq, Structural)]
pub enum RequestSlot {
    /// The request may be sent. The slot is already spent.
    Granted { used: i64, limit: i64 },
    /// The day's allowance is gone. It returns at the next epoch.
    Exhausted { used: i64, limit: i64 },
    /// The short window is full. Nothing was spent.
    WindowFull { retry_after_seconds: i64 },
}

/// The position of a provider's counter for an epoch.
pub open spec fn counter_index(
    counters: Seq<CounterView>,
    provider: Seq<char>,
    epoch: i64,
) -> Option<int>
    decreases counters.len(),
{
    if counters.len() == 0 {
        None
    } else if counters.last().provider == provider && counters.last().epoch == epoch {
        Some(counters.len() - 1)
    } else {
        counter_index(counters.drop_last(), provider, epoch)
    }
}

proof fn lemma_counter_index(counters: Seq<CounterView>, provider: Seq<char>, epoch: i64)
    ensures
        match counter_index(counters, provider, epoch) {
            Some(k) => 0 <= k < counters.len() && counters[k].provider == provider
                && counters[k].epoch == epoch,
            None => forall|k: int|
                0 <= k < counters.len() ==> !((#[trigger] counters[k]).provider == provider
                    && counters[k].epoch == epoch),
        },
    decreases counters.len(),
{
    if counters.len() > 0 {
        lemma_counter_index(counters.drop_last(), provider, epoch);
        if counter_index(counters, provider, epoch) is None {
            assert forall|k: int| 0 <= k < counters.len() implies !((
            #[trigger] counters[k]).provider == provider && counters[k].epoch == epoch) by {
                if k < counters.len() - 1 {
                    assert(counters[k] == counters.drop_last()[k]);
                }
            }
        }
    }
}

fn find_counter(counters: &Vec<CounterRow>, provider: &str, epoch: i64) -> (found: Option<usize>)
    ensures
        match found {
            Some(k) => k < counters@.len() && counter_index(views(counters@), provider@, epoch)
                == Some(k as int),
            None => counter_index(views(counters@), provider@, epoch) is None,
        },
{
    let mut i: usize = counters.len();
    assert(views(counters@).take(i as int) =~= views(counters@));
    while i > 0
        invariant
            i <= counters@.len(),
            counter_index(views(counters@).take(i as int), provider@, epoch) == counter_index(
                views(counters@),
                provider@,
                epoch,
            ),
        decreases i,
    {
        assert(views(counters@).take(i as int).last() == counters@[i - 1]@);
        if counters[i - 1].epoch == epoch && str_eq(counters[i - 1].provider.as_str(), provider) {
            return Some(i - 1);
        }
        assert(views(counters@).take(i as int).drop_last() =~= views(counters@).take(i - 1));
        i = i - 1;
    }
    None
}

/// The counters with the day's limit recorded, starting a day at zero.
pub open spec fn with_limit(
    counters: Seq<CounterView>,
    provider: Seq<char>,
    epoch: i64,
    limit: i64,
) -> Seq<CounterView> {
    match counter_index(counters, provider, epoch) {
        Some(k) => counters.update(k, CounterView { limit_per_day: limit, ..counters[k] }),
        None => counters.push(CounterView { provider, epoch, limit_per_day: limit, used: 0 }),
    }
}

/// What a provider has used of a day.
pub open spec fn used_of(counters: Seq<CounterView>, provider: Seq<char>, epoch: i64) -> int {
    match counter_index(counters, provider, epoch) {
        Some(k) => counters[k].used as int,
        None => 0,
    }
}

/// The dispatches without the provider's that are older than the window.
pub open spec fn pruned(
    dispatches: Seq<DispatchView>,
    provider: Seq<char>,
    window_start: i64,
) -> Seq<DispatchView>
    decreases dispatches.len(),
{
    if dispatches.len() == 0 {
        Seq::empty()
    } else {
        let rest = pruned(dispatches.drop_last(), provider, window_start);
        let last = dispatches.last();
        if last.provider == provider && last.at < window_start {
            rest
        } else {
            rest.push(last)
        }
    }
}

/// How many requests the provider was sent at or after `since`.
pub open spec fn sent_since(dispatches: Seq<DispatchView>, provider: Seq<char>, since: i64) -> nat
    decreases dispatches.len(),
{
    if dispatches.len() == 0 {
        0
    } else {
        let last = dispatches.last();
        sent_since(dispatches.drop_last(), provider, since) + if last.provider == provider
            && last.at >= since {
            1nat
        } else {
            0nat
        }
    }
}

/// When the oldest of those requests was sent.
pub open spec fn oldest_since(
    dispatches: Seq<DispatchView>,
    provider: Seq<char>,
    since: i64,
) -> Option<i64>
    decreases dispatches.len(),
{
    if dispatches.len() == 0 {
        None
    } else {
        let last = dispatches.last();
        let before = oldest_since(dispatches.drop_last(), provider, since);
        if last.provider == provider && last.at >= since {
            match before {
                Some(at) if at <= last.at => Some(at),
                _ => Some(last.at),
            }
        } else {
            before
        }
    }
}

/// The window frees a slot once its oldest entry falls out of it; never sooner
/// than in a second.
pub open spec fn wait_for(oldest: Option<i64>, window_seconds: i64, now: i64) -> int {
    match oldest {
        None => 1,
        Some(at) => {
            let wait = at + window_seconds - now;
            if wait < 1 {
                1
            } else if wait > i64::MAX {
                i64::MAX as int
            } else {
                wait
            }
        },
    }
}

/// Taking one request slot: what it answers and the tables after it.
pub open spec fn slot_outcome(
    t: TablesView,
    provider: Seq<char>,
    epoch: i64,
    limit_per_day: u64,
    window: RequestWindow,
    now: i64,
) -> Result<(RequestSlot, TablesView), ErrorView> {
    let limit = limit_per_day as i64;
    let counters = with_limit(t.counters, provider, epoch, limit);
    let used = used_of(t.counters, provider, epoch) as i64;
    let start = now - window.window_seconds;
    if limit_per_day > i64::MAX {
        Err(ErrorView::Overflow)
    } else if used >= limit {
        Ok((RequestSlot::Exhausted { used, limit }, TablesView { counters, ..t }))
    } else if !fits(start) {
        Err(ErrorView::Overflow)
    } else {
        let kept = pruned(t.dispatches, provider, start as i64);
        if sent_since(kept, provider, start as i64) >= window.max_in_window {
            let oldest = oldest_since(kept, provider, start as i64);
            Ok(
                (
                    RequestSlot::WindowFull {
                        retry_after_seconds: wait_for(oldest, window.window_seconds, now) as i64,
                    },
                    TablesView { counters, dispatches: kept, ..t },
                ),
            )
        } else {
            let k = counter_index(counters, provider, epoch)->0;
            Ok(
                (
                    RequestSlot::Granted { used: (used + 1) as i64, limit },
                    TablesView {
                        counters: counters.update(
                            k,
                            CounterView { used: (used + 1) as i64, ..counters[k] },
                        ),
                        dispatches: kept.push(DispatchView { provider, at: now }),
                        ..t
                    },
                ),
            )
        }
    }
}

proof fn lemma_with_limit(counters: Seq<CounterView>, provider: Seq<char>, epoch: i64, limit: i64)
    requires
        counters_ok(counters),
    ensures
        ({
            let after = with_limit(counters, provider, epoch, limit);
            &&& counters_ok(after)
            &&& counter_index(after, provider, epoch) matches Some(k) && 0 <= k < after.len()
                && after[k] == (CounterView {
                provider,
                epoch,
                limit_per_day: limit,
                used: used_of(counters, provider, epoch) as i64,
            })
            &&& used_of(after, provider, epoch) == used_of(counters, provider, epoch)
        }),
{
    let after = with_limit(counters, provider, epoch, limit);
    lemma_counter_index(counters, provider, epoch);
    lemma_counter_index(after, provider, epoch);
    match counter_index(counters, provider, epoch) {
        Some(k) => {
            assert(after[k].provider == provider && after[k].epoch == epoch);
            let m = counter_index(after, provider, epoch)->0;
            if m < k {
                assert(!(counters[m].provider == counters[k].provider && counters[m].epoch
                    == counters[k].epoch));
            } else if k < m {
                assert(!(counters[k].provider == counters[m].provider && counters[k].epoch
                    == counters[m].epoch));
            }
        },
        None => {
            assert(after.last().provider == provider && after.last().epoch == epoch);
        },
    }
}

/// Law: taking a slot leaves the tables in the shape the schema keeps.
pub proof fn taking_a_slot_keeps_the_shape(
    t: TablesView,
    provider: Seq<char>,
    epoch: i64,
    limit_per_day: u64,
    window: RequestWindow,
    now: i64,
)
    requires
        tables_ok(t),
    ensures
        slot_outcome(t, provider, epoch, limit_per_day, window, now) matches Ok((_, after))
            ==> tables_ok(after),
{
    lemma_with_limit(t.counters, provider, epoch, limit_per_day as i64);
    lemma_used_is_counted(t.counters, provider, epoch);
}

proof fn lemma_used_is_counted(counters: Seq<CounterView>, provider: Seq<char>, epoch: i64)
    requires
        counters_ok(counters),
    ensures
        0 <= used_of(counters, provider, epoch) <= i64::MAX,
{
    lemma_counter_index(counters, provider, epoch);
}

/// Law: a slot is spent exactly when it is granted, one at a time, and never
/// beyond the day's limit. Nothing gives one back.
pub proof fn slots_are_never_returned_or_overdrawn(
    t: TablesView,
    provider: Seq<char>,
    epoch: i64,
    limit_per_day: u64,
    window: RequestWindow,
    now: i64,
)
    requires
        tables_ok(t),
    ensures
        slot_outcome(t, provider, epoch, limit_per_day, window, now) matches Ok((slot, after)) ==> {
            let before_used = used_of(t.counters, provider, epoch);
            let after_used = used_of(after.counters, provider, epoch);
            match slot {
                RequestSlot::Granted { used, limit } => after_used == before_used + 1 && used
                    == after_used && used <= limit && limit == limit_per_day,
                RequestSlot::Exhausted { used, limit } => after_used == before_used && used
                    == before_used && used >= limit && limit == limit_per_day,
                RequestSlot::WindowFull { retry_after_seconds } => after_used == before_used
                    && retry_after_seconds >= 1,
            }
        },
{
    let limit = limit_per_day as i64;
    lemma_with_limit(t.counters, provider, epoch, limit);
    lemma_used_is_counted(t.counters, provider, epoch);
    if let Ok((slot, after)) = slot_outcome(t, provider, epoch, limit_per_day, window, now) {
        if slot is Granted {
            let counters = with_limit(t.counters, provider, epoch, limit);
            let k = counter_index(counters, provider, epoch)->0;
            lemma_counter_index(after.counters, provider, epoch);
            let m = counter_index(after.counters, provider, epoch)->0;
            assert(after.counters[k].provider == provider && after.counters[k].epoch == epoch);
            if m < k {
                assert(!(counters[m].provider == counters[k].provider && counters[m].epoch
                    == counters[k].epoch));
            } else if k < m {
                assert(!(counters[k].provider == counters[m].provider && counters[k].epoch
                    == counters[m].epoch));
            }
        }
    }
}

/// Law: each epoch and each provider counts separately.
pub proof fn other_counters_are_untouched(
    t: TablesView,
    provider: Seq<char>,
    epoch: i64,
    limit_per_day: u64,
    window: RequestWindow,
    now: i64,
    other: Seq<char>,
    other_epoch: i64,
)
    requires
        tables_ok(t),
        other != provider || other_epoch != epoch,
    ensures
        slot_outcome(t, provider, epoch, limit_per_day, window, now) matches Ok((_, after))
            ==> used_of(after.counters, other, other_epoch) == used_of(
            t.counters,
            other,
            other_epoch,
        ),
{
    let limit = limit_per_day as i64;
    let counters = with_limit(t.counters, provider, epoch, limit);
    lemma_with_limit(t.counters, provider, epoch, limit);
    if let Ok((slot, after)) = slot_outcome(t, provider, epoch, limit_per_day, window, now) {
        lemma_counter_index(t.counters, provider, epoch);
        match counter_index(t.counters, provider, epoch) {
            Some(k) => {
                lemma_update_elsewhere(t.counters, k, counters[k], other, other_epoch);
            },
            None => {
                assert(counters.drop_last() =~= t.counters);
                lemma_counter_index(t.counters, other, other_epoch);
            },
        }
        assert(used_of(counters, other, other_epoch) == used_of(t.counters, other, other_epoch));
        if slot is Granted {
            let k = counter_index(counters, provider, epoch)->0;
            lemma_update_elsewhere(counters, k, after.counters[k], other, other_epoch);
        }
    }
}

proof fn lemma_update_elsewhere(
    counters: Seq<CounterView>,
    k: int,
    row: CounterView,
    other: Seq<char>,
    other_epoch: i64,
)
    requires
        0 <= k < counters.len(),
        row.provider == counters[k].provider,
        row.epoch == counters[k].epoch,
        other != row.provider || other_epoch != row.epoch,
    ensures
        used_of(counters.update(k, row), other, other_epoch) == used_of(
            counters,
            other,
            other_epoch,
        ),
    decreases counters.len(),
{
    let after = counters.update(k, row);
    if k < counters.len() - 1 {
        assert(after.drop_last() =~= counters.drop_last().update(k, row));
        lemma_update_elsewhere(counters.drop_last(), k, row, other, other_epoch);
        lemma_counter_index(counters.drop_last(), other, other_epoch);
        lemma_counter_index(after.drop_last(), other, other_epoch);
    } else {
        assert(after.drop_last() =~= counters.drop_last());
        lemma_counter_index(counters.drop_last(), other, other_epoch);
    }
}

/// Law: whatever is granted, the window never holds more than it allows.
pub proof fn the_window_is_never_overfilled(
    t: TablesView,
    provider: Seq<char>,
    epoch: i64,
    limit_per_day: u64,
    window: RequestWindow,
    now: i64,
)
    requires
        window.window_seconds >= 0,
    ensures
        slot_outcome(t, provider, epoch, limit_per_day, window, now) matches Ok((slot, after)) ==> (
        slot is Granted ==> sent_since(
            after.dispatches,
            provider,
            (now - window.window_seconds) as i64,
        ) <= window.max_in_window),
{
    if let Ok((slot, after)) = slot_outcome(t, provider, epoch, limit_per_day, window, now) {
        if slot is Granted {
            let start = (now - window.window_seconds) as i64;
            let kept = pruned(t.dispatches, provider, start);
            assert(after.dispatches.drop_last() =~= kept);
        }
    }
}

fn prune(dispatches: &Vec<DispatchRow>, provider: &str, window_start: i64) -> (out: Vec<
    DispatchRow,
>)
    ensures
        views(out@) == pruned(views(dispatches@), provider@, window_start),
{
    let ghost all = views(dispatches@);
    let mut out: Vec<DispatchRow> = Vec::new();
    let mut i: usize = 0;
    assert(all.take(0) =~= Seq::<DispatchView>::empty());
    assert(views(out@) =~= Seq::<DispatchView>::empty());
    while i < dispatches.len()
        invariant
            i <= dispatches@.len(),
            all == views(dispatches@),
            views(out@) == pruned(all.take(i as int), provider@, window_start),
        decreases dispatches.len() - i,
    {
        let row = &dispatches[i];
        let ghost so_far = views(out@);
        assert(all.take(i + 1).drop_last() =~= all.take(i as int));
        assert(all.take(i + 1).last() == row@);
        if !(row.at < window_start && str_eq(row.provider.as_str(), provider)) {
            out.push(DispatchRow { provider: row.provider.clone(), at: row.at });
            assert(views(out@) =~= so_far.push(row@));
        }
        i = i + 1;
    }
    assert(all.take(i as int) =~= all);
    out
}

/// Counts the provider's requests since a time, and finds the oldest.
fn survey(dispatches: &Vec<DispatchRow>, provider: &str, since: i64) -> (result: (
    u64,
    Option<i64>,
))
    ensures
        result.0 == sent_since(views(dispatches@), provider@, since),
        result.1 == oldest_since(views(dispatches@), provider@, since),
{
    let ghost all = views(dispatches@);
    let mut count: u64 = 0;
    let mut oldest: Option<i64> = None;
    let mut i: usize = 0;
    assert(all.take(0) =~= Seq::<DispatchView>::empty());
    while i < dispatches.len()
        invariant
            i <= dispatches@.len(),
            all == views(dispatches@),
            count <= i,
            count == sent_since(all.take(i as int), provider@, since),
            oldest == oldest_since(all.take(i as int), provider@, since),
        decreases dispatches.len() - i,
    {
        let row = &dispatches[i];
        assert(all.take(i + 1).drop_last() =~= all.take(i as int));
        assert(all.take(i + 1).last() == row@);
        if row.at >= since && str_eq(row.provider.as_str(), provider) {
            count = count + 1;
            match oldest {
                Some(at) => {
                    if at > row.at {
                        oldest = Some(row.at);
                    }
                },
                None => {
                    oldest = Some(row.at);
                },
            }
        }
        i = i + 1;
    }
    assert(all.take(i as int) =~= all);
    (count, oldest)
}

impl Ledger {
    /// Takes one request slot, durably, before anything is sent.
    ///
    /// `now` is trusted time. The slot is spent whatever the request's
    /// outcome; there is no path that returns it.
    pub fn take_request_slot(
        &mut self,
        provider: &str,
        epoch: i64,
        limit_per_day: u64,
        window: RequestWindow,
        now: i64,
    ) -> (result: Result<RequestSlot, LedgerError>)
        requires
            old(self).ok(),
        ensures
            final(self).ok(),
            final(self).trust == old(self).trust,
            match slot_outcome(
                old(self).tables@,
                provider@,
                epoch,
                limit_per_day,
                window,
                now,
            ) {
                Ok((slot, after)) => {
                    &&& result == Ok::<RequestSlot, LedgerError>(slot)
                    &&& final(self).tables@ == after
                },
                Err(error) => result matches Err(e) && e@ == error && final(self).tables@ == old(
                    self,
                ).tables@,
            },
    {
        let ghost before = self.tables@;
        proof {
            taking_a_slot_keeps_the_shape(before, provider@, epoch, limit_per_day, window, now);
            lemma_used_is_counted(before.counters, provider@, epoch);
        }
        if limit_per_day > i64::MAX as u64 {
            return Err(LedgerError::Overflow);
        }
        let limit: i64 = limit_per_day as i64;
        let ghost counters = with_limit(before.counters, provider@, epoch, limit);
        proof {
            lemma_with_limit(before.counters, provider@, epoch, limit);
            lemma_counter_index(before.counters, provider@, epoch);
        }
        let found = find_counter(&self.tables.counters, provider, epoch);
        let used: i64 = match found {
            Some(k) => self.tables.counters[k].used,
            None => 0,
        };
        assert(found matches Some(k) ==> before.counters[k as int] == self.tables.counters@[
            k as int]@);
        assert(used == used_of(before.counters, provider@, epoch));
        let spent = used >= limit;
        let window_start: i64 = match now.checked_sub(window.window_seconds) {
            Some(start) => start,
            None => {
                if !spent {
                    return Err(LedgerError::Overflow);
                }
                now
            },
        };
        let slot: usize = match found {
            Some(k) => {
                self.tables.counters[k].limit_per_day = limit;
                k
            },
            None => {
                self.tables.counters.push(
                    CounterRow {
                        provider: provider.to_owned(),
                        epoch,
                        limit_per_day: limit,
                        used: 0,
                    },
                );
                self.tables.counters.len() - 1
            },
        };
        assert(views(self.tables.counters@) =~= counters);
        if spent {
            return Ok(RequestSlot::Exhausted { used, limit });
        }
        // Nothing older than the window can hold a request back.
        let kept = prune(&self.tables.dispatches, provider, window_start);
        let (in_window, oldest) = survey(&kept, provider, window_start);
        self.tables.dispatches = kept;
        if in_window >= window.max_in_window as u64 {
            let retry_after_seconds: i64 = match oldest {
                None => 1,
                Some(at) => {
                    let wait: i128 = at as i128 + window.window_seconds as i128 - now as i128;
                    if wait < 1 {
                        1
                    } else if wait > i64::MAX as i128 {
                        i64::MAX
                    } else {
                        wait as i64
                    }
                },
            };
            return Ok(RequestSlot::WindowFull { retry_after_seconds });
        }
        let ghost kept_view = views(self.tables.dispatches@);
        assert(counter_index(counters, provider@, epoch) == Some(slot as int)) by {
            lemma_counter_index(counters, provider@, epoch);
            let m = counter_index(counters, provider@, epoch)->0;
            assert(counters[slot as int].provider == provider@ && counters[slot as int].epoch
                == epoch);
            if m < slot {
                assert(!(counters[m].provider == counters[slot as int].provider
                    && counters[m].epoch == counters[slot as int].epoch));
            } else if slot < m {
                assert(!(counters[slot as int].provider == counters[m].provider
                    && counters[slot as int].epoch == counters[m].epoch));
            }
        }
        self.tables.counters[slot].used = used + 1;
        assert(views(self.tables.counters@) =~= counters.update(
            slot as int,
            CounterView { used: (used + 1) as i64, ..counters[slot as int] },
        ));
        self.tables.dispatches.push(DispatchRow { provider: provider.to_owned(), at: now });
        assert(views(self.tables.dispatches@) =~= kept_view.push(
            DispatchView { provider: provider@, at: now },
        ));
        Ok(RequestSlot::Granted { used: used + 1, limit })
    }

    /// What the day's count stands at, if the provider has been used at all:
    /// the requests used and the limit.
    pub fn request_counts(&self, provider: &str, epoch: i64) -> (counts: Result<
        Option<(i64, i64)>,
        LedgerError,
    >)
        ensures
            counts == Ok::<Option<(i64, i64)>, LedgerError>(
                match counter_index(self.tables@.counters, provider@, epoch) {
                    Some(k) => Some(
                        (self.tables@.counters[k].used, self.tables@.counters[k].limit_per_day),
                    ),
                    None => None,
                },
            ),
    {
        match find_counter(&self.tables.counters, provider, epoch) {
            None => Ok(None),
            Some(k) => {
                let row = &self.tables.counters[k];
                assert(self.tables@.counters[k as int] == row@);
                Ok(Some((row.used, row.limit_per_day)))
            },
        }
    }

    /// Requests sent at or after `since`. For reporting; admission itself is
    /// `take_request_slot`.
    pub fn requests_in_window(&self, provider: &str, since: i64) -> (result: Result<
        i64,
        LedgerError,
    >)
        ensures
            match result {
                Ok(count) => count == sent_since(self.tables@.dispatches, provider@, since),
                Err(error) => error@ == ErrorView::Overflow && sent_since(
                    self.tables@.dispatches,
                    provider@,
                    since,
                ) > i64::MAX,
            },
    {
        let count: u64 = survey(&self.tables.dispatches, provider, since).0;
        if count > i64::MAX as u64 {
            return Err(LedgerError::Overflow);
        }
        Ok(count as i64)
    }
}

proof fn lemma_pruned_counts(
    dispatches: Seq<DispatchView>,
    provider: Seq<char>,
    start: i64,
    other: Seq<char>,
    since: i64,
)
    requires
        other == provider ==> since >= start,
    ensures
        sent_since(pruned(dispatches, provider, start), other, since) == sent_since(
            dispatches,
            other,
            since,
        ),
        oldest_since(pruned(dispatches, provider, start), other, since) == oldest_since(
            dispatches,
            other,
            since,
        ),
    decreases dispatches.len(),
{
    if dispatches.len() > 0 {
        lemma_pruned_counts(dispatches.drop_last(), provider, start, other, since);
        let rest = pruned(dispatches.drop_last(), provider, start);
        let last = dispatches.last();
        assert(rest.push(last).drop_last() =~= rest);
    }
}

/// Law: a request is one of those sent since a time where it went to the
/// provider at that time or later.
pub proof fn a_request_counts_from_its_time(
    dispatches: Seq<DispatchView>,
    last: DispatchView,
    provider: Seq<char>,
    since: i64,
)
    ensures
        sent_since(dispatches.push(last), provider, since) - sent_since(
            dispatches,
            provider,
            since,
        ) == (if last.provider == provider && since <= last.at {
            1int
        } else {
            0int
        }),
        sent_since(Seq::empty(), provider, since) == 0,
{
    assert(dispatches.push(last).drop_last() =~= dispatches);
}

/// Law: a slot is granted exactly where the day is not used up and the window
/// has room: fewer requests than it allows went to the provider within its
/// seconds up to now. What is granted is recorded at once, and neither the
/// requests of another provider nor those still in the window are forgotten.
pub proof fn a_slot_is_granted_where_there_is_room(
    t: TablesView,
    provider: Seq<char>,
    epoch: i64,
    limit_per_day: u64,
    window: RequestWindow,
    now: i64,
    other: Seq<char>,
    since: i64,
)
    requires
        tables_ok(t),
        limit_per_day <= i64::MAX,
        i64::MIN <= now - window.window_seconds <= i64::MAX,
        other == provider ==> since >= now - window.window_seconds,
    ensures
        ({
            let start = (now - window.window_seconds) as i64;
            let room = used_of(t.counters, provider, epoch) < limit_per_day;
            let free = sent_since(t.dispatches, provider, start) < window.max_in_window;
            match slot_outcome(t, provider, epoch, limit_per_day, window, now) {
                Ok((slot, after)) => {
                    &&& slot is Granted <==> room && free
                    &&& slot is Exhausted <==> !room
                    &&& slot is WindowFull <==> room && !free
                    &&& sent_since(after.dispatches, other, since) == sent_since(
                        t.dispatches,
                        other,
                        since,
                    ) + (if slot is Granted && other == provider && since <= now {
                        1int
                    } else {
                        0int
                    })
                    &&& after.pools == t.pools && after.rows == t.rows && after.meta == t.meta
                    &&& after.inputs == t.inputs && after.latches == t.latches
                },
                Err(_) => false,
            }
        }),
{
    let start = (now - window.window_seconds) as i64;
    lemma_used_is_counted(t.counters, provider, epoch);
    lemma_pruned_counts(t.dispatches, provider, start, provider, start);
    lemma_pruned_counts(t.dispatches, provider, start, other, since);
    let kept = pruned(t.dispatches, provider, start);
    a_request_counts_from_its_time(kept, DispatchView { provider, at: now }, other, since);
}

proof fn lemma_oldest(dispatches: Seq<DispatchView>, provider: Seq<char>, since: i64)
    ensures
        match oldest_since(dispatches, provider, since) {
            Some(at) => {
                &&& exists|i: int|
                    0 <= i < dispatches.len() && (#[trigger] dispatches[i]).provider == provider
                        && dispatches[i].at == at
                &&& at >= since
                &&& forall|i: int|
                    0 <= i < dispatches.len() && (#[trigger] dispatches[i]).provider == provider
                        && dispatches[i].at >= since ==> at <= dispatches[i].at
            },
            None => forall|i: int|
                0 <= i < dispatches.len() ==> !((#[trigger] dispatches[i]).provider == provider
                    && dispatches[i].at >= since),
        },
    decreases dispatches.len(),
{
    if dispatches.len() > 0 {
        let front = dispatches.drop_last();
        let n = dispatches.len() - 1;
        lemma_oldest(front, provider, since);
        assert forall|i: int| 0 <= i < n implies front[i] == #[trigger] dispatches[i] by {}
        assert(dispatches[n] == dispatches.last());
        if let Some(at) = oldest_since(front, provider, since) {
            let i = choose|i: int|
                0 <= i < front.len() && (#[trigger] front[i]).provider == provider && front[i].at
                    == at;
            assert(dispatches[i].at == at);
        }
        assert forall|i: int|
            0 <= i < dispatches.len() && (#[trigger] dispatches[i]).provider == provider
                && dispatches[i].at >= since implies (oldest_since(
            dispatches,
            provider,
            since,
        ) matches Some(at) && at <= dispatches[i].at) by {
            if i < n {
                assert(front[i] == dispatches[i]);
            }
        }
    }
}

/// Law: a full window is to be tried again when the oldest request in it falls
/// out of it, and no sooner than in a second.
pub proof fn a_full_window_frees_with_its_oldest(
    t: TablesView,
    provider: Seq<char>,
    epoch: i64,
    limit_per_day: u64,
    window: RequestWindow,
    now: i64,
    i: int,
)
    requires
        slot_outcome(t, provider, epoch, limit_per_day, window, now) matches Ok((slot, _))
            && slot is WindowFull,
        window.max_in_window > 0,
        0 <= i < t.dispatches.len(),
        t.dispatches[i].provider == provider,
        t.dispatches[i].at >= now - window.window_seconds,
        forall|k: int|
            0 <= k < t.dispatches.len() && (#[trigger] t.dispatches[k]).provider == provider
                && t.dispatches[k].at >= now - window.window_seconds ==> t.dispatches[i].at
                <= t.dispatches[k].at,
        t.dispatches[i].at + window.window_seconds - now <= i64::MAX,
    ensures
        slot_outcome(t, provider, epoch, limit_per_day, window, now) matches Ok(
            (RequestSlot::WindowFull { retry_after_seconds }, _),
        ) && retry_after_seconds == if t.dispatches[i].at + window.window_seconds - now >= 1 {
            t.dispatches[i].at + window.window_seconds - now
        } else {
            1
        },
{
    let start = (now - window.window_seconds) as i64;
    lemma_pruned_counts(t.dispatches, provider, start, provider, start);
    lemma_oldest(t.dispatches, provider, start);
    assert(t.dispatches[i].at >= start);
}

} // verus!
