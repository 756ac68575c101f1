//! Trusted time from the provider.
//!
//! The epoch window never trusts the local wall clock. It takes a reading of
//! the provider's clock, the `Date` header of a successful model listing,
//! which costs no quota and answers whether or not inference is open, and
//! advances it by elapsed time on a monotonic clock, which wall-clock
//! adjustments cannot move.
use vstd::prelude::*;
use vstd::string::*;

use crate::epoch::TrustedReading;
use crate::status_policy::is_success;
use crate::text::{decimal_text, push_decimal, str_view};

verus! {

#[derive(Debug, Clone, Copy, PartialEq, Eq, Structural)]
pub enum ClockError {
    /// Only a successful answer is taken as the provider's clock. Anything
    /// else may not have come from the provider.
    Status(u16),
    NoDate,
}

/// What went wrong, in words.
pub open spec fn clock_text(error: ClockError) -> Seq<char> {
    match error {
        ClockError::Status(status) => "the provider answered the time request with status "@
            + decimal_text(status as nat),
        ClockError::NoDate => "the provider's response carried no usable Date header"@,
    }
}

impl ClockError {
    pub fn message(self) -> (text: String)
        ensures
            text@ == clock_text(self),
    {
        match self {
            ClockError::Status(status) => {
                let mut text = String::from_str(
                    "the provider answered the time request with status ",
                );
                push_decimal(&mut text, status as u128);
                text
            },
            ClockError::NoDate => String::from_str(
                "the provider's response carried no usable Date header",
            ),
        }
    }
}

/// The Unix time that `httpdate::parse_http_date` reads from the text of a
/// `Date` header; `None` where it refuses the text.
pub uninterp spec fn http_date(text: Seq<char>) -> Option<u64>;

/// Trusted: `httpdate::parse_http_date` reads an HTTP date, which is converted
/// to whole seconds since the Unix epoch. It depends on the text alone.
#[verifier::external_body]
fn parse_date(text: &str) -> (unix: Option<u64>)
    ensures
        unix == http_date(text@),
{
    httpdate::parse_http_date(text).ok()
        .and_then(|time| time.duration_since(std::time::UNIX_EPOCH).ok())
        .map(|since| since.as_secs())
}

/// The reading that an answer gives, where `date` is the Unix time its `Date`
/// header carries.
pub open spec fn reading_of(status: u16, date: Option<u64>, local: i64) -> Result<
    TrustedReading,
    ClockError,
> {
    if !is_success(status) {
        Err(ClockError::Status(status))
    } else {
        match date {
            Some(unix) if unix <= i64::MAX => Ok(
                TrustedReading { upstream_unix: unix as i64, local_unix: local },
            ),
            _ => Err(ClockError::NoDate),
        }
    }
}

/// The Unix time a `Date` header carries.
pub open spec fn date_of(header: Option<Seq<char>>) -> Option<u64> {
    match header {
        Some(text) => http_date(text),
        None => None,
    }
}

/// The trusted time now: the last reading advanced by elapsed monotonic time.
pub open spec fn advanced(reading: Option<TrustedReading>, local: i64) -> Option<i64> {
    match reading {
        Some(r) => {
            let now = r.upstream_unix + (local - r.local_unix);
            if i64::MIN <= now <= i64::MAX {
                Some(now as i64)
            } else {
                None
            }
        },
        None => None,
    }
}

#[derive(Debug, Clone, Copy, PartialEq, Eq, Structural)]
pub struct TrustedClock {
    last: Option<TrustedReading>,
}

impl TrustedClock {
    pub closed spec fn reading(self) -> Option<TrustedReading> {
        self.last
    }

    /// A clock that has not been read.
    pub fn new() -> (clock: TrustedClock)
        ensures
            clock.reading() is None,
    {
        TrustedClock { last: None }
    }

    pub fn last_reading(&self) -> (reading: Option<TrustedReading>)
        ensures
            reading == self.reading(),
    {
        self.last
    }

    /// Takes the answer to a model listing: its status, and the text of its
    /// `Date` header. `local` is monotonic seconds at the answer.
    pub fn refresh(&mut self, status: u16, date: Option<&str>, local: i64) -> (result: Result<
        TrustedReading,
        ClockError,
    >)
        ensures
            result == reading_of(status, date_of(str_view(date)), local),
            final(self).reading() == (match result {
                Ok(reading) => Some(reading),
                Err(_) => old(self).reading(),
            }),
    {
        let unix = match date {
            Some(text) => parse_date(text),
            None => None,
        };
        self.take(status, unix, local)
    }

    /// Takes the answer to a model listing, where `date` is the Unix time its
    /// `Date` header carries.
    pub fn take(&mut self, status: u16, date: Option<u64>, local: i64) -> (result: Result<
        TrustedReading,
        ClockError,
    >)
        ensures
            result == reading_of(status, date, local),
            final(self).reading() == (match result {
                Ok(reading) => Some(reading),
                Err(_) => old(self).reading(),
            }),
    {
        if !(200 <= status && status <= 299) {
            return Err(ClockError::Status(status));
        }
        match date {
            Some(unix) => {
                if unix <= i64::MAX as u64 {
                    let reading = TrustedReading {
                        upstream_unix: unix as i64,
                        local_unix: local,
                    };
                    self.last = Some(reading);
                    Ok(reading)
                } else {
                    Err(ClockError::NoDate)
                }
            },
            None => Err(ClockError::NoDate),
        }
    }

    /// Trusted time now: the last reading advanced by monotonic elapsed time;
    /// `None` without a reading, or past the times a timestamp can hold.
    pub fn trusted_now(&self, local: i64) -> (now: Option<i64>)
        ensures
            now == advanced(self.reading(), local),
    {
        match self.last {
            Some(reading) => {
                let now: i128 = reading.upstream_unix as i128 + (local as i128
                    - reading.local_unix as i128);
                if (i64::MIN as i128) <= now && now <= i64::MAX as i128 {
                    Some(now as i64)
                } else {
                    None
                }
            },
            None => None,
        }
    }
}

/// Law: only a successful answer is a time source. Anything else leaves the
/// clock as it was.
pub proof fn an_unsuccessful_answer_is_not_a_time_source(
    status: u16,
    date: Option<u64>,
    local: i64,
)
    ensures
        reading_of(status, date, local) is Ok ==> is_success(status),
        !is_success(status) ==> reading_of(status, date, local) == Err::<
            TrustedReading,
            ClockError,
        >(ClockError::Status(status)),
{
}

/// Law: trusted time moves with the monotonic clock alone.
pub proof fn trusted_time_moves_with_the_monotonic_clock(
    reading: TrustedReading,
    local: i64,
    later: i64,
)
    requires
        advanced(Some(reading), local) is Some,
        advanced(Some(reading), later) is Some,
    ensures
        advanced(Some(reading), later)->0 - advanced(Some(reading), local)->0 == later - local,
        advanced(Some(reading), reading.local_unix) == Some(reading.upstream_unix),
{
}

/// Law: a reading pairs the date of a successful answer with the local time at
/// which it came, and a successful answer with a date that can be held is one.
pub proof fn a_reading_is_the_date_of_an_answer(status: u16, date: Option<u64>, local: i64)
    ensures
        match reading_of(status, date, local) {
            Ok(reading) => 200 <= status < 300 && date == Some(reading.upstream_unix as u64)
                && reading.upstream_unix >= 0 && reading.local_unix == local,
            Err(ClockError::NoDate) => 200 <= status < 300 && (date is None || date->0 > i64::MAX),
            Err(ClockError::Status(given)) => given == status && !(200 <= status < 300),
        },
{
}

} // verus!
