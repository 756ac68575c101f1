//! Daily epochs, and the window around each boundary in which admission stops.
//!
//! Upstream resets the free-token counter at 00:00 UTC. Two opposite mistakes
//! are both expensive:
//!
//! - Opening the next day's pool before upstream has reset.
//! - Continuing to spend the previous day's inventory after upstream has
//!   reset. Upstream charges that spending to the new day, and when the new
//!   day is later opened in full, the same quota has been issued twice.
//!
//! So admission closes at the earliest moment the boundary could have
//! passed, and the next epoch is only reported due once trusted time shows
//! the boundary passed beyond all uncertainty plus an opening delay. The
//! decision never trusts the local wall clock: it uses a reading from a
//! source that consumes no quota, advanced by local elapsed time.
use vstd::prelude::*;

verus! {

pub const SECONDS_PER_DAY: i64 = 86_400;

/// The epoch (UTC day index) containing a unix time.
pub fn epoch_of(unix: i64) -> (epoch: i64)
    ensures
        epoch == unix as int / 86_400,
        epoch * 86_400 <= unix < (epoch + 1) * 86_400,
{
    if unix >= 0 {
        unix / SECONDS_PER_DAY
    } else {
        let days: i64 = (-(unix + 1)) / SECONDS_PER_DAY;
        -days - 1
    }
}

/// The unix time at which an epoch ends.
pub open spec fn end_time(epoch: int) -> int {
    (epoch + 1) * 86_400
}

/// The unix time at which `epoch` ends and the next begins upstream.
pub fn end_of(epoch: i64) -> (end: i64)
    requires
        i64::MIN <= end_time(epoch as int) <= i64::MAX,
        epoch < i64::MAX,
    ensures
        end == end_time(epoch as int),
{
    (epoch + 1) * SECONDS_PER_DAY
}

/// A time reading from a source that consumes no quota.
#[derive(Debug, Clone, Copy, PartialEq, Eq, Structural)]
pub struct TrustedReading {
    /// UTC unix seconds reported by the source.
    pub upstream_unix: i64,
    /// Local clock reading taken at the same moment. Only the elapsed local
    /// time since then is used, never the local clock's absolute value.
    pub local_unix: i64,
}

#[derive(Debug, Clone, Copy, PartialEq, Eq, Structural)]
pub struct ClockPolicy {
    reading_uncertainty: i64,
    open_delay: i64,
    max_reading_age: i64,
}

#[derive(Debug, Clone, Copy, PartialEq, Eq, Structural)]
pub enum PolicyError {
    /// Reading uncertainty must be at least one second.
    UncertaintyTooSmall,
    /// The opening delay must be at least [`MIN_OPEN_DELAY`] seconds.
    OpenDelayTooShort,
    /// A trusted reading may be at most [`MAX_READING_AGE`] seconds old.
    ReadingAgeOutOfRange,
}

/// What is wrong with a policy, in words.
pub open spec fn policy_text(error: PolicyError) -> Seq<char> {
    match error {
        PolicyError::UncertaintyTooSmall => "reading uncertainty must be at least one second"@,
        PolicyError::OpenDelayTooShort => "the opening delay must be at least 300 seconds"@,
        PolicyError::ReadingAgeOutOfRange =>
            "a trusted reading may be at most 3600 seconds old"@,
    }
}

impl PolicyError {
    pub fn message(self) -> (text: &'static str)
        ensures
            text@ == policy_text(self),
    {
        match self {
            PolicyError::UncertaintyTooSmall => "reading uncertainty must be at least one second",
            PolicyError::OpenDelayTooShort => "the opening delay must be at least 300 seconds",
            PolicyError::ReadingAgeOutOfRange =>
                "a trusted reading may be at most 3600 seconds old",
        }
    }
}

/// The positive skew guard. The next day's pool is never opened sooner than
/// this after the upstream reset.
pub const MIN_OPEN_DELAY: i64 = 300;

pub const MAX_READING_AGE: i64 = 3_600;

impl ClockPolicy {
    pub closed spec fn uncertainty(self) -> int {
        self.reading_uncertainty as int
    }

    pub closed spec fn delay(self) -> int {
        self.open_delay as int
    }

    pub closed spec fn max_age(self) -> int {
        self.max_reading_age as int
    }

    /// What every policy that was made keeps to.
    pub open spec fn ok(self) -> bool {
        &&& 1 <= self.uncertainty() <= i64::MAX
        &&& MIN_OPEN_DELAY <= self.delay() <= i64::MAX
        &&& 1 <= self.max_age() <= MAX_READING_AGE
    }

    /// `reading_uncertainty` covers the source's one-second resolution, the
    /// round trip, and local clock drift over `max_reading_age`.
    pub fn new(reading_uncertainty: i64, open_delay: i64, max_reading_age: i64) -> (result: Result<
        Self,
        PolicyError,
    >)
        ensures
            match result {
                Ok(policy) => {
                    &&& policy.ok()
                    &&& policy.uncertainty() == reading_uncertainty
                    &&& policy.delay() == open_delay
                    &&& policy.max_age() == max_reading_age
                },
                Err(PolicyError::UncertaintyTooSmall) => reading_uncertainty < 1,
                Err(PolicyError::OpenDelayTooShort) => reading_uncertainty >= 1 && open_delay
                    < MIN_OPEN_DELAY,
                Err(PolicyError::ReadingAgeOutOfRange) => reading_uncertainty >= 1 && open_delay
                    >= MIN_OPEN_DELAY && !(1 <= max_reading_age <= MAX_READING_AGE),
            },
    {
        if reading_uncertainty < 1 {
            return Err(PolicyError::UncertaintyTooSmall);
        }
        if open_delay < MIN_OPEN_DELAY {
            return Err(PolicyError::OpenDelayTooShort);
        }
        if !(1 <= max_reading_age && max_reading_age <= MAX_READING_AGE) {
            return Err(PolicyError::ReadingAgeOutOfRange);
        }
        Ok(Self { reading_uncertainty, open_delay, max_reading_age })
    }

    pub fn reading_uncertainty(&self) -> (seconds: i64)
        ensures
            seconds == self.uncertainty(),
    {
        self.reading_uncertainty
    }

    pub fn open_delay(&self) -> (seconds: i64)
        ensures
            seconds == self.delay(),
    {
        self.open_delay
    }
}

#[derive(Debug, Clone, Copy, PartialEq, Eq, Structural)]
pub enum Window {
    /// The current epoch's pool may be spent.
    Open,
    /// Nothing may be admitted against any epoch.
    Closed(ClosedReason),
    /// The boundary has passed beyond all uncertainty and the opening delay.
    /// Roll the ledger over to `epoch` before admitting anything.
    RolloverDue { epoch: i64 },
}

#[derive(Debug, Clone, Copy, PartialEq, Eq, Structural)]
pub enum ClosedReason {
    /// Within the uncertainty of the boundary, or inside the opening delay.
    NearBoundary,
    /// No reading, or one older than the policy allows.
    NoTrustedTime,
    /// The local clock reads earlier than when the reading was taken, so
    /// elapsed time cannot be measured.
    ClockWentBackwards,
}

/// Local time elapsed since a reading.
pub open spec fn elapsed_since(reading: TrustedReading, local_now: i64) -> int {
    local_now - reading.local_unix
}

/// What the reading, advanced by the elapsed time, says the time is.
pub open spec fn estimated_now(reading: TrustedReading, local_now: i64) -> int {
    reading.upstream_unix + elapsed_since(reading, local_now)
}

/// The latest epoch that has begun beyond doubt, by at least the opening delay.
pub open spec fn due_epoch(policy: ClockPolicy, reading: TrustedReading, local_now: i64) -> int {
    (estimated_now(reading, local_now) - policy.uncertainty() - policy.delay()) / 86_400
}

/// Whether the pool of `current_epoch` may be spent.
pub open spec fn window_at(
    policy: ClockPolicy,
    current_epoch: i64,
    local_now: i64,
    reading: Option<TrustedReading>,
) -> Window {
    match reading {
        None => Window::Closed(ClosedReason::NoTrustedTime),
        Some(reading) => if elapsed_since(reading, local_now) < 0 {
            Window::Closed(ClosedReason::ClockWentBackwards)
        } else if elapsed_since(reading, local_now) > policy.max_age() {
            Window::Closed(ClosedReason::NoTrustedTime)
        } else if estimated_now(reading, local_now) + policy.uncertainty() < end_time(
            current_epoch as int,
        ) {
            Window::Open
        } else if due_epoch(policy, reading, local_now) > current_epoch {
            Window::RolloverDue { epoch: due_epoch(policy, reading, local_now) as i64 }
        } else {
            Window::Closed(ClosedReason::NearBoundary)
        },
    }
}

/// Decides whether the pool of `current_epoch` may be spent now.
pub fn window(
    policy: &ClockPolicy,
    current_epoch: i64,
    local_now: i64,
    reading: Option<TrustedReading>,
) -> (decision: Window)
    requires
        policy.ok(),
    ensures
        decision == window_at(*policy, current_epoch, local_now, reading),
{
    let reading = match reading {
        None => return Window::Closed(ClosedReason::NoTrustedTime),
        Some(reading) => reading,
    };
    let elapsed: i128 = local_now as i128 - reading.local_unix as i128;
    if elapsed < 0 {
        return Window::Closed(ClosedReason::ClockWentBackwards);
    }
    if elapsed > policy.max_reading_age as i128 {
        return Window::Closed(ClosedReason::NoTrustedTime);
    }
    let estimate: i128 = reading.upstream_unix as i128 + elapsed;
    let latest_possible: i128 = estimate + policy.reading_uncertainty as i128;
    let earliest_possible: i128 = estimate - policy.reading_uncertainty as i128;
    let end: i128 = (current_epoch as i128 + 1) * 86_400;
    if latest_possible < end {
        return Window::Open;
    }
    // The boundary may have passed. Only a boundary that has passed beyond
    // doubt, by at least the opening delay, lets a later epoch open.
    let opened: i128 = earliest_possible - policy.open_delay as i128;
    let due: i128 = if opened >= 0 {
        opened / 86_400
    } else {
        -((-(opened + 1)) / 86_400) - 1
    };
    assert(due == opened as int / 86_400);
    if due > current_epoch as i128 {
        Window::RolloverDue { epoch: due as i64 }
    } else {
        Window::Closed(ClosedReason::NearBoundary)
    }
}

/// Law: for any true time, any reading error within the stated uncertainty,
/// and any elapsed time within the allowed age, the old day is never open once
/// upstream has reset, and a new day is never reported due before upstream has
/// reached it plus the opening delay.
pub proof fn never_spends_across_the_reset_and_never_opens_early(
    policy: ClockPolicy,
    current_epoch: i64,
    true_now: int,
    reading: TrustedReading,
    local_now: i64,
)
    requires
        policy.ok(),
        ({
            let reading_error = reading.upstream_unix - (true_now - elapsed_since(
                reading,
                local_now,
            ));
            -policy.uncertainty() <= reading_error <= policy.uncertainty()
        }),
    ensures
        true_now >= end_time(current_epoch as int) ==> window_at(
            policy,
            current_epoch,
            local_now,
            Some(reading),
        ) != Window::Open,
        window_at(policy, current_epoch, local_now, Some(reading)) matches Window::RolloverDue {
            epoch,
        } ==> epoch > current_epoch && epoch * 86_400 + policy.delay() <= true_now,
{
}

/// Law: without a fresh reading nothing is open.
pub proof fn without_fresh_trusted_time_nothing_opens(
    policy: ClockPolicy,
    current_epoch: i64,
    local_now: i64,
    reading: Option<TrustedReading>,
)
    requires
        reading matches Some(r) ==> !(0 <= elapsed_since(r, local_now) <= policy.max_age()),
    ensures
        window_at(policy, current_epoch, local_now, reading) is Closed,
{
}

/// Law: a policy trusts no reading to less than a second, none that is older
/// than an hour, and opens no day sooner than five minutes after the reset.
pub proof fn a_policy_keeps_its_distance(policy: ClockPolicy)
    ensures
        policy.ok() <==> 1 <= policy.uncertainty() <= i64::MAX && 300 <= policy.delay() <= i64::MAX
            && 1 <= policy.max_age() <= 3_600,
{
}

/// Law: with a fresh reading, a day is open for as long as it cannot have ended:
/// while the latest time it may be is before its end. Once the earliest time it
/// may be is past the end of the day by the opening delay, the day that is due
/// is the last whose own delay is over, and between the two nothing is open.
pub proof fn a_day_is_open_until_it_may_have_ended(
    policy: ClockPolicy,
    current_epoch: i64,
    local_now: i64,
    reading: TrustedReading,
)
    requires
        policy.ok(),
        0 <= local_now - reading.local_unix <= policy.max_age(),
    ensures
        ({
            let now = reading.upstream_unix + local_now - reading.local_unix;
            let latest = now + policy.uncertainty();
            let opened = now - policy.uncertainty() - policy.delay();
            match window_at(policy, current_epoch, local_now, Some(reading)) {
                Window::Open => latest < current_epoch * 86_400 + 86_400,
                Window::RolloverDue { epoch } => latest >= current_epoch * 86_400 + 86_400 && epoch
                    > current_epoch && epoch * 86_400 <= opened < (epoch + 1) * 86_400,
                Window::Closed(reason) => reason == ClosedReason::NearBoundary && latest
                    >= current_epoch * 86_400 + 86_400 && opened < current_epoch * 86_400 + 86_400,
            }
        }),
{
}

/// Law: time that cannot be told says why: no reading or one that is too old,
/// or a local clock that went backwards.
pub proof fn time_that_cannot_be_told_says_why(
    policy: ClockPolicy,
    current_epoch: i64,
    local_now: i64,
    reading: Option<TrustedReading>,
)
    ensures
        window_at(policy, current_epoch, local_now, reading) == Window::Closed(
            ClosedReason::ClockWentBackwards,
        ) <==> (reading matches Some(r) && local_now < r.local_unix),
        window_at(policy, current_epoch, local_now, reading) == Window::Closed(
            ClosedReason::NoTrustedTime,
        ) <==> (reading is None || (reading matches Some(r) && local_now >= r.local_unix
            && local_now - r.local_unix > policy.max_age())),
{
}

} // verus!
