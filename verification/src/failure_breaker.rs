//! Holding a provider back after consecutive ambiguous failures.
//!
//! A 5xx, a timeout, or a stream that breaks before its terminal event holds
//! the reservation, because the request may have been processed. Codex
//! answers each such failure with a new request, and each new request holds
//! another reservation. A provider failing this way would turn the pool into
//! held reservations.
//!
//! After `threshold` ambiguous failures with no completed response between
//! them, the breaker opens for a cooldown. Once it has opened, the next
//! ambiguous failure opens it again, with the cooldown doubled up to a cap. A
//! completed response resets both. Failures that arrive while it is open come
//! from requests sent before it opened, and do not extend it.
//!
//! Nothing is persisted: a restart closes the breaker. Times are nanoseconds
//! on a monotonic clock.
use vstd::prelude::*;

verus! {

#[derive(Debug, Clone, Copy, PartialEq, Eq, Structural)]
pub struct BreakerPolicy {
    pub threshold: u32,
    pub initial_cooldown: u64,
    pub max_cooldown: u64,
}

impl BreakerPolicy {
    /// Cooldowns that can be doubled.
    pub open spec fn ok(self) -> bool {
        self.initial_cooldown <= u64::MAX / 2 && self.max_cooldown <= u64::MAX / 2
    }
}

impl Default for BreakerPolicy {
    fn default() -> (policy: BreakerPolicy)
        ensures
            policy == (BreakerPolicy {
                threshold: 3,
                initial_cooldown: 30_000_000_000,
                max_cooldown: 600_000_000_000,
            }),
            policy.ok(),
    {
        BreakerPolicy {
            threshold: 3,
            initial_cooldown: 30_000_000_000,
            max_cooldown: 600_000_000_000,
        }
    }
}

#[derive(Debug, Clone, Copy, PartialEq, Eq, Structural)]
pub struct FailureBreaker {
    pub policy: BreakerPolicy,
    pub consecutive_failures: u32,
    pub open_until: Option<u64>,
    pub next_cooldown: u64,
}

/// Whether a breaker is open at a time.
pub open spec fn is_open(breaker: FailureBreaker, now: u64) -> bool {
    breaker.open_until matches Some(until) && until > now
}

/// The breaker after an ambiguous failure.
pub open spec fn after_failure(breaker: FailureBreaker, now: u64) -> FailureBreaker {
    let failures = if breaker.consecutive_failures == u32::MAX {
        u32::MAX
    } else {
        (breaker.consecutive_failures + 1) as u32
    };
    let counted = FailureBreaker { consecutive_failures: failures, ..breaker };
    if is_open(breaker, now) || failures < breaker.policy.threshold {
        counted
    } else {
        FailureBreaker {
            open_until: Some((now + breaker.next_cooldown) as u64),
            next_cooldown: if breaker.next_cooldown * 2 <= breaker.policy.max_cooldown {
                (breaker.next_cooldown * 2) as u64
            } else {
                breaker.policy.max_cooldown
            },
            ..counted
        }
    }
}

/// The breaker after a completed response.
pub open spec fn after_completion(breaker: FailureBreaker) -> FailureBreaker {
    FailureBreaker {
        consecutive_failures: 0,
        next_cooldown: breaker.policy.initial_cooldown,
        ..breaker
    }
}

impl FailureBreaker {
    pub open spec fn ok(self) -> bool {
        self.policy.ok() && self.next_cooldown <= u64::MAX / 2
    }

    pub fn new(policy: BreakerPolicy) -> (breaker: FailureBreaker)
        requires
            policy.ok(),
        ensures
            breaker.ok(),
            breaker == new_breaker(policy),
    {
        FailureBreaker {
            policy,
            consecutive_failures: 0,
            open_until: None,
            next_cooldown: policy.initial_cooldown,
        }
    }

    /// How much longer the breaker stays open, or `None` when closed.
    pub fn open_for(&self, now: u64) -> (remaining: Option<u64>)
        ensures
            remaining == (if is_open(*self, now) {
                Some((self.open_until->0 - now) as u64)
            } else {
                None
            }),
    {
        match self.open_until {
            Some(until) => {
                if until > now {
                    Some(until - now)
                } else {
                    None
                }
            },
            None => None,
        }
    }

    /// Sent, and it cannot be shown that generation did not start: a
    /// transport error, a 5xx or other unlisted status, or a stream that
    /// ended before its terminal event.
    pub fn record_ambiguous_failure(&mut self, now: u64)
        requires
            old(self).ok(),
            now + old(self).next_cooldown <= u64::MAX,
        ensures
            final(self).ok(),
            *final(self) == after_failure(*old(self), now),
    {
        if self.consecutive_failures < u32::MAX {
            self.consecutive_failures = self.consecutive_failures + 1;
        }
        let open = match self.open_until {
            Some(until) => until > now,
            None => false,
        };
        if !open && self.consecutive_failures >= self.policy.threshold {
            self.open_until = Some(now + self.next_cooldown);
            let doubled: u64 = self.next_cooldown * 2;
            self.next_cooldown = if doubled <= self.policy.max_cooldown {
                doubled
            } else {
                self.policy.max_cooldown
            };
        }
    }

    /// A terminal event arrived: the provider is completing responses.
    pub fn record_completion(&mut self)
        requires
            old(self).ok(),
        ensures
            final(self).ok(),
            *final(self) == after_completion(*old(self)),
    {
        self.consecutive_failures = 0;
        self.next_cooldown = self.policy.initial_cooldown;
    }
}

/// Law: failures while it is open do not extend it.
pub proof fn failures_while_open_do_not_extend(breaker: FailureBreaker, now: u64)
    requires
        is_open(breaker, now),
    ensures
        after_failure(breaker, now).open_until == breaker.open_until,
        after_failure(breaker, now).next_cooldown == breaker.next_cooldown,
{
}

/// Law: it opens at the threshold, for the cooldown that is next, and stays
/// closed below it.
pub proof fn it_opens_at_the_threshold(breaker: FailureBreaker, now: u64)
    requires
        breaker.ok(),
        !is_open(breaker, now),
        now + breaker.next_cooldown <= u64::MAX,
        breaker.consecutive_failures < u32::MAX,
    ensures
        breaker.consecutive_failures + 1 < breaker.policy.threshold ==> after_failure(
            breaker,
            now,
        ).open_until == breaker.open_until,
        breaker.consecutive_failures + 1 >= breaker.policy.threshold ==> after_failure(
            breaker,
            now,
        ).open_until == Some((now + breaker.next_cooldown) as u64),
{
}

/// Law: no cooldown is longer than the longer of the first and the cap.
pub proof fn cooldowns_are_capped(breaker: FailureBreaker, now: u64)
    requires
        breaker.next_cooldown <= breaker.policy.initial_cooldown || breaker.next_cooldown
            <= breaker.policy.max_cooldown,
    ensures
        ({
            let after = after_failure(breaker, now);
            after.next_cooldown <= after.policy.initial_cooldown || after.next_cooldown
                <= after.policy.max_cooldown
        }),
        after_completion(breaker).next_cooldown <= breaker.policy.initial_cooldown,
{
}

/// Law: a completed response starts the count and the cooldown over.
pub proof fn a_completion_resets_both(breaker: FailureBreaker)
    ensures
        after_completion(breaker).consecutive_failures == 0,
        after_completion(breaker).next_cooldown == breaker.policy.initial_cooldown,
        after_completion(breaker).open_until == breaker.open_until,
{
}

// ---------------------------------------------------------------------------
// Whole histories.

/// Something that is recorded with a breaker.
pub enum Call {
    Failure { now: u64 },
    Completion,
}

/// A breaker that nothing has been recorded with.
pub open spec fn new_breaker(policy: BreakerPolicy) -> FailureBreaker {
    FailureBreaker {
        policy,
        consecutive_failures: 0,
        open_until: None,
        next_cooldown: policy.initial_cooldown,
    }
}

/// The breaker after a history.
pub open spec fn after_calls(policy: BreakerPolicy, calls: Seq<Call>) -> FailureBreaker
    decreases calls.len(),
{
    if calls.len() == 0 {
        new_breaker(policy)
    } else {
        let before = after_calls(policy, calls.drop_last());
        match calls.last() {
            Call::Failure { now } => after_failure(before, now),
            Call::Completion => after_completion(before),
        }
    }
}

/// How many failures a history holds since its last completion.
pub open spec fn failures_since_completion(calls: Seq<Call>) -> nat
    decreases calls.len(),
{
    if calls.len() == 0 {
        0
    } else {
        match calls.last() {
            Call::Failure { .. } => failures_since_completion(calls.drop_last()) + 1,
            Call::Completion => 0,
        }
    }
}

/// How long the breaker opened when it last did since the last completion.
pub open spec fn last_opening(policy: BreakerPolicy, calls: Seq<Call>) -> Option<int>
    decreases calls.len(),
{
    if calls.len() == 0 {
        None
    } else {
        match calls.last() {
            Call::Failure { now } => if !is_open(after_calls(policy, calls.drop_last()), now)
                && is_open(after_calls(policy, calls), now) {
                Some(after_calls(policy, calls).open_until->0 - now)
            } else {
                last_opening(policy, calls.drop_last())
            },
            Call::Completion => None,
        }
    }
}

/// How long the next opening is: the first cooldown, and then twice the last
/// opening up to the cap.
pub open spec fn next_opening(policy: BreakerPolicy, last: Option<int>) -> int {
    match last {
        None => policy.initial_cooldown as int,
        Some(cooldown) => if 2 * cooldown <= policy.max_cooldown {
            2 * cooldown
        } else {
            policy.max_cooldown as int
        },
    }
}

/// The times of a history leave room for a cooldown.
pub open spec fn calls_ok(policy: BreakerPolicy, calls: Seq<Call>) -> bool {
    forall|i: int|
        0 <= i < calls.len() ==> ((#[trigger] calls[i]) matches Call::Failure { now } ==> now
            + policy.initial_cooldown <= u64::MAX && now + policy.max_cooldown <= u64::MAX)
}

/// What a breaker keeps of its history.
proof fn lemma_after_calls(policy: BreakerPolicy, calls: Seq<Call>)
    requires
        policy.ok(),
        0 < policy.initial_cooldown,
        0 < policy.max_cooldown,
        calls_ok(policy, calls),
    ensures
        ({
            let breaker = after_calls(policy, calls);
            let failures = failures_since_completion(calls);
            &&& breaker.policy == policy
            &&& breaker.consecutive_failures == if failures <= u32::MAX {
                failures
            } else {
                u32::MAX as nat
            }
            &&& breaker.next_cooldown == next_opening(policy, last_opening(policy, calls))
            &&& 0 < breaker.next_cooldown
            &&& breaker.next_cooldown == policy.initial_cooldown || breaker.next_cooldown
                <= policy.max_cooldown
        }),
    decreases calls.len(),
{
    if calls.len() > 0 {
        let earlier = calls.drop_last();
        assert(calls.last() == calls[calls.len() - 1]);
        assert forall|i: int| 0 <= i < earlier.len() implies ((
        #[trigger] earlier[i]) matches Call::Failure { now } ==> now + policy.initial_cooldown
            <= u64::MAX && now + policy.max_cooldown <= u64::MAX) by {
            assert(earlier[i] == calls[i]);
        }
        lemma_after_calls(policy, earlier);
    }
}

/// Law: whatever was recorded before, a failure while the breaker is open
/// changes nothing of when it closes. While it is closed, the failure opens it
/// exactly where, with it, there have been `threshold` since the last
/// completion; and then for the first cooldown, or, where the breaker has
/// opened since that completion, for twice as long as it last did, up to the
/// cap.
pub proof fn a_breaker_follows_its_history(policy: BreakerPolicy, calls: Seq<Call>, now: u64)
    requires
        policy.ok(),
        0 < policy.initial_cooldown,
        0 < policy.max_cooldown,
        calls_ok(policy, calls.push(Call::Failure { now })),
    ensures
        ({
            let before = after_calls(policy, calls);
            let after = after_calls(policy, calls.push(Call::Failure { now }));
            let failures = failures_since_completion(calls) + 1;
            &&& after == after_failure(before, now)
            &&& is_open(before, now) ==> after.open_until == before.open_until
            &&& !is_open(before, now) && failures < policy.threshold ==> after.open_until
                == before.open_until && !is_open(after, now)
            &&& !is_open(before, now) && failures >= policy.threshold ==> after.open_until == Some(
                (now + next_opening(policy, last_opening(policy, calls))) as u64,
            ) && is_open(after, now) && last_opening(policy, calls.push(Call::Failure { now }))
                == Some(next_opening(policy, last_opening(policy, calls)))
        }),
{
    let longer = calls.push(Call::Failure { now });
    assert(longer.drop_last() =~= calls);
    assert(longer.last() == longer[calls.len() as int]);
    assert forall|i: int| 0 <= i < calls.len() implies ((
    #[trigger] calls[i]) matches Call::Failure { now: at } ==> at + policy.initial_cooldown
        <= u64::MAX && at + policy.max_cooldown <= u64::MAX) by {
        assert(longer[i] == calls[i]);
    }
    lemma_after_calls(policy, calls);
}

/// Law: a completion leaves an open breaker open for as long as it was, and
/// starts the count and the cooldowns over.
pub proof fn a_completion_starts_over(policy: BreakerPolicy, calls: Seq<Call>)
    ensures
        ({
            let after = calls.push(Call::Completion);
            &&& after_calls(policy, after).open_until == after_calls(policy, calls).open_until
            &&& failures_since_completion(after) == 0
            &&& last_opening(policy, after) is None
        }),
{
    assert(calls.push(Call::Completion).drop_last() =~= calls);
}

/// Law: every failure is counted, and a failure that opens the breaker doubles
/// the next cooldown, up to the cap; one that does not leaves it.
pub proof fn a_failure_that_opens_it_doubles_the_cooldown(breaker: FailureBreaker, now: u64)
    requires
        breaker.ok(),
        now + breaker.next_cooldown <= u64::MAX,
    ensures
        ({
            let after = after_failure(breaker, now);
            let opens = (breaker.open_until is None || breaker.open_until->0 <= now)
                && breaker.consecutive_failures + 1 >= breaker.policy.threshold;
            &&& after.policy == breaker.policy
            &&& after.consecutive_failures == breaker.consecutive_failures + 1
                || breaker.consecutive_failures == u32::MAX
            &&& opens && breaker.consecutive_failures < u32::MAX ==> {
                &&& after.open_until == Some((now + breaker.next_cooldown) as u64)
                &&& after.next_cooldown <= breaker.policy.max_cooldown
                &&& after.next_cooldown <= 2 * breaker.next_cooldown
                &&& after.next_cooldown == breaker.policy.max_cooldown || after.next_cooldown == 2
                    * breaker.next_cooldown
            }
            &&& !opens ==> after.open_until == breaker.open_until && after.next_cooldown
                == breaker.next_cooldown
        }),
{
}

/// Law: a breaker is open before its time and closed from then on.
pub proof fn a_breaker_is_open_until_its_time(breaker: FailureBreaker, now: u64)
    ensures
        is_open(breaker, now) <==> breaker.open_until is Some && now < breaker.open_until->0,
{
}

} // verus!
