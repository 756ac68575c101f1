//! Staying out of a provider's rate limit.
//!
//! A 429 costs nothing, since its reservation is released, but sending into a
//! limit that has not reset only earns another, and a client that retries each
//! one turns that into a storm. So each upstream has a gate. It closes on a
//! 429 until the limit resets, and closes pre-emptively when a successful
//! response reports that nothing remains.
//!
//! Times are nanoseconds on a monotonic clock.
use vstd::prelude::*;
use vstd::string::*;

use crate::text::{
    chars_of, digit_value, digits_value, eq_ignoring_case, read_long_digits, read_unsigned,
    same_letters, trim, trimmed, unsigned_value,
};

verus! {

/// The shortest a 429 closes a gate, when the provider gives no reset time.
pub const MIN_BACKOFF: u64 = 1_000_000_000;

/// The longest any single signal can close a gate.
pub const MAX_BACKOFF: u64 = 300_000_000_000;

/// The longest time a duration can hold, in nanoseconds.
pub const DURATION_MAX: u128 = 18_446_744_073_709_551_615_999_999_999;

/// The headers of a response: each name, with its value where that is text.
#[derive(Debug)]
pub struct Headers {
    pub entries: Vec<(String, Option<String>)>,
}

pub open spec fn headers_view(entries: Seq<(String, Option<String>)>) -> Seq<
    (Seq<char>, Option<Seq<char>>),
> {
    Seq::new(
        entries.len(),
        |i: int|
            (
                entries[i].0@,
                match entries[i].1 {
                    Some(text) => Some(text@),
                    None => None,
                },
            ),
    )
}

impl View for Headers {
    type V = Seq<(Seq<char>, Option<Seq<char>>)>;

    open spec fn view(&self) -> Seq<(Seq<char>, Option<Seq<char>>)> {
        headers_view(self.entries@)
    }
}

/// The text of the first header with a name. Names are read whatever their
/// case.
pub open spec fn header_value(
    headers: Seq<(Seq<char>, Option<Seq<char>>)>,
    name: Seq<char>,
    from: int,
) -> Option<Seq<char>>
    decreases headers.len() - from,
{
    if from < 0 || from >= headers.len() {
        None
    } else if same_letters(headers[from].0, name) {
        headers[from].1
    } else {
        header_value(headers, name, from + 1)
    }
}

impl Headers {
    /// The text of the first header with a name.
    pub fn text(&self, name: &str) -> (text: Option<&str>)
        ensures
            crate::text::str_view(text) == header_value(self@, name@, 0),
    {
        let mut i: usize = 0;
        while i < self.entries.len()
            invariant
                i <= self.entries@.len(),
                header_value(self@, name@, i as int) == header_value(self@, name@, 0),
            decreases self.entries.len() - i,
        {
            let entry = &self.entries[i];
            assert(self@[i as int].0 == entry.0@);
            if eq_ignoring_case(entry.0.as_str(), name) {
                return match &entry.1 {
                    Some(text) => Some(text.as_str()),
                    None => None,
                };
            }
            i = i + 1;
        }
        None
    }
}

// ---------------------------------------------------------------------------
// Reset durations.

/// Whether a character can stand in a number.
pub open spec fn in_number(c: char) -> bool {
    digit_value(c) is Some || c == '.'
}

/// How many characters of a text, from its start, can stand in a number.
pub open spec fn number_length(s: Seq<char>) -> nat
    decreases s.len(),
{
    if s.len() > 0 && in_number(s[0]) {
        1 + number_length(s.drop_first())
    } else {
        0
    }
}

/// Where the first point stands, or the length.
pub open spec fn point_at(s: Seq<char>) -> nat
    decreases s.len(),
{
    if s.len() > 0 && s[0] != '.' {
        1 + point_at(s.drop_first())
    } else {
        0
    }
}

/// The first `places` decimal digits of a fraction, as a number. What is
/// finer is below anything a duration resolves.
pub open spec fn fraction_value(s: Seq<char>, places: nat) -> nat
    decreases places,
{
    if places == 0 {
        0
    } else if places as int > s.len() {
        fraction_value(s, (places - 1) as nat) * 10
    } else {
        fraction_value(s, (places - 1) as nat) * 10 + (match digit_value(s[places - 1]) {
            Some(d) => d,
            None => 0,
        })
    }
}

/// A number times a unit of nanoseconds, in units of 10^-18 nanoseconds. A
/// number has a digit, and at most one point.
pub open spec fn scaled(number: Seq<char>, unit: nat) -> Option<nat> {
    let at = point_at(number) as int;
    let whole = number.take(at);
    let fraction = if at < number.len() {
        number.skip(at + 1)
    } else {
        Seq::empty()
    };
    if whole.len() + fraction.len() == 0 || point_at(fraction) < fraction.len() {
        None
    } else {
        let units = if whole.len() == 0 {
            Some(0nat)
        } else {
            digits_value(whole)
        };
        match units {
            None => None,
            Some(n) => Some(
                (n * unit) * 1_000_000_000_000_000_000 + fraction_value(fraction, 18) * unit,
            ),
        }
    }
}

/// Units of 10^-18 nanoseconds as nanoseconds, to the nearest one, and to the
/// even one of two that are as near.
pub open spec fn rounded(fine: nat) -> nat {
    let nanos = fine / 1_000_000_000_000_000_000;
    let rest = fine % 1_000_000_000_000_000_000;
    if rest < 500_000_000_000_000_000 || (rest == 500_000_000_000_000_000 && nanos % 2 == 0) {
        nanos
    } else {
        nanos + 1
    }
}

/// The unit at the start of a text: its nanoseconds and its length.
pub open spec fn unit_at(s: Seq<char>) -> Option<(nat, nat)> {
    if s.len() >= 2 && s[0] == 'm' && s[1] == 's' {
        Some((1_000_000, 2))
    } else if s.len() >= 1 && s[0] == 'h' {
        Some((3_600_000_000_000, 1))
    } else if s.len() >= 1 && s[0] == 'm' {
        Some((60_000_000_000, 1))
    } else if s.len() >= 1 && s[0] == 's' {
        Some((1_000_000_000, 1))
    } else {
        None
    }
}

/// The sum of the numbers with units that a text is made of, in units of
/// 10^-18 nanoseconds.
pub open spec fn reset_sum(s: Seq<char>, total: nat) -> Option<nat>
    decreases s.len(),
{
    if s.len() == 0 {
        Some(total)
    } else {
        let n = number_length(s) as int;
        if n <= 0 || n > s.len() {
            None
        } else {
            match unit_at(s.skip(n)) {
                None => None,
                Some((unit, length)) => if n + length > s.len() {
                    None
                } else {
                    match scaled(s.take(n), unit) {
                        None => None,
                        Some(fine) => reset_sum(s.skip(n + length as int), total + fine),
                    }
                },
            }
        }
    }
}

/// The time that a text such as `1h2m3.5s` gives, in nanoseconds, where a
/// duration can hold it. The sum is rounded, not its parts.
pub open spec fn reset_value(text: Seq<char>) -> Option<u128> {
    let s = trimmed(text);
    if s.len() == 0 {
        None
    } else {
        match reset_sum(s, 0) {
            Some(fine) if rounded(fine) <= DURATION_MAX => Some(rounded(fine) as u128),
            _ => None,
        }
    }
}

/// A sum only grows.
proof fn lemma_sum_grows(s: Seq<char>, total: nat)
    ensures
        reset_sum(s, total) matches Some(n) ==> n >= total,
    decreases s.len(),
{
    if s.len() > 0 {
        let n = number_length(s) as int;
        if 0 < n <= s.len() {
            if let Some((unit, length)) = unit_at(s.skip(n)) {
                if n + length <= s.len() {
                    if let Some(fine) = scaled(s.take(n), unit) {
                        lemma_sum_grows(s.skip(n + length as int), total + fine);
                    }
                }
            }
        }
    }
}

proof fn lemma_number_length(s: Seq<char>, n: int)
    requires
        0 <= n <= s.len(),
        forall|k: int| 0 <= k < n ==> in_number(#[trigger] s[k]),
        n < s.len() ==> !in_number(s[n]),
    ensures
        number_length(s) == n,
    decreases s.len(),
{
    if n > 0 {
        let rest = s.drop_first();
        assert forall|k: int| 0 <= k < n - 1 implies in_number(#[trigger] rest[k]) by {
            assert(rest[k] == s[k + 1]);
        }
        assert(n < s.len() ==> rest[n - 1] == s[n]);
        lemma_number_length(rest, n - 1);
    }
}

proof fn lemma_point_at(s: Seq<char>, n: int)
    requires
        0 <= n <= s.len(),
        forall|k: int| 0 <= k < n ==> (#[trigger] s[k]) != '.',
        n < s.len() ==> s[n] == '.',
    ensures
        point_at(s) == n,
    decreases s.len(),
{
    if n > 0 {
        let rest = s.drop_first();
        assert forall|k: int| 0 <= k < n - 1 implies (#[trigger] rest[k]) != '.' by {
            assert(rest[k] == s[k + 1]);
        }
        assert(n < s.len() ==> rest[n - 1] == s[n]);
        lemma_point_at(rest, n - 1);
    }
}

/// The end of the number that starts at `from`.
fn number_end(chars: &Vec<char>, from: usize, to: usize) -> (end: usize)
    requires
        from <= to <= chars@.len(),
    ensures
        from <= end <= to,
        number_length(chars@.subrange(from as int, to as int)) == end - from,
{
    let ghost s = chars@.subrange(from as int, to as int);
    let mut end: usize = from;
    while end < to && (chars[end] == '.' || (48 <= chars[end] as u32 && chars[end] as u32 <= 57))
        invariant
            from <= end <= to <= chars@.len(),
            s == chars@.subrange(from as int, to as int),
            forall|k: int| 0 <= k < end - from ==> in_number(#[trigger] s[k]),
        decreases to - end,
    {
        assert(s[end - from] == chars@[end as int]);
        end = end + 1;
    }
    proof {
        if end < to {
            assert(s[end - from] == chars@[end as int]);
        }
        lemma_number_length(s, end - from);
    }
    end
}

/// The first point in `chars[from..to]`, or `to`.
pub fn find_point(chars: &Vec<char>, from: usize, to: usize) -> (at: usize)
    requires
        from <= to <= chars@.len(),
    ensures
        from <= at <= to,
        point_at(chars@.subrange(from as int, to as int)) == at - from,
{
    let ghost s = chars@.subrange(from as int, to as int);
    let mut at: usize = from;
    while at < to && chars[at] != '.'
        invariant
            from <= at <= to <= chars@.len(),
            s == chars@.subrange(from as int, to as int),
            forall|k: int| 0 <= k < at - from ==> (#[trigger] s[k]) != '.',
        decreases to - at,
    {
        assert(s[at - from] == chars@[at as int]);
        at = at + 1;
    }
    proof {
        if at < to {
            assert(s[at - from] == chars@[at as int]);
        }
        lemma_point_at(s, at - from);
    }
    at
}

/// The first eighteen decimal digits of the fraction in `chars[from..to]`.
fn read_fraction(chars: &Vec<char>, from: usize, to: usize) -> (value: u128)
    requires
        from <= to <= chars@.len(),
    ensures
        value == fraction_value(chars@.subrange(from as int, to as int), 18),
        value < 1_000_000_000_000_000_000,
{
    let ghost s = chars@.subrange(from as int, to as int);
    let mut value: u128 = 0;
    let mut scale: u128 = 1;
    let mut i: usize = 0;
    let length: usize = to - from;
    while i < 18
        invariant
            from <= to <= chars@.len(),
            length == to - from,
            s == chars@.subrange(from as int, to as int),
            i <= 18,
            value == fraction_value(s, i as nat),
            value < scale,
            scale == power_of_ten(i as nat),
        decreases 18 - i,
    {
        proof {
            lemma_powers(i as nat);
        }
        let mut digit: u128 = 0;
        if i < length {
            let c = chars[from + i];
            assert(s[i as int] == c);
            let code: u32 = c as u32;
            if 48 <= code && code <= 57 {
                digit = (code - 48) as u128;
            }
        }
        value = value * 10 + digit;
        scale = scale * 10;
        i = i + 1;
    }
    proof {
        lemma_powers(18);
    }
    value
}

pub open spec fn power_of_ten(n: nat) -> nat
    decreases n,
{
    if n == 0 {
        1
    } else {
        10 * power_of_ten((n - 1) as nat)
    }
}

proof fn lemma_powers(n: nat)
    requires
        n <= 18,
    ensures
        power_of_ten(n) <= 1_000_000_000_000_000_000,
        power_of_ten(18) == 1_000_000_000_000_000_000,
{
    reveal_with_fuel(power_of_ten, 19);
    lemma_power_order(n, 18);
}

proof fn lemma_power_order(a: nat, b: nat)
    requires
        a <= b,
    ensures
        power_of_ten(a) <= power_of_ten(b),
        power_of_ten(a) >= 1,
    decreases b - a, a,
{
    if a < b {
        lemma_power_order(a, (b - 1) as nat);
    } else if a > 0 {
        lemma_power_order((a - 1) as nat, (a - 1) as nat);
    }
}

/// The number in `chars[from..to]` times a unit: whole nanoseconds, and what
/// is left in units of 10^-18 nanoseconds; `None` where it is no number or no
/// duration can hold it.
fn read_scaled(chars: &Vec<char>, from: usize, to: usize, unit: u128) -> (parts: Option<
    (u128, u128),
>)
    requires
        from <= to <= chars@.len(),
        1_000_000 <= unit <= 3_600_000_000_000,
    ensures
        match scaled(chars@.subrange(from as int, to as int), unit as nat) {
            Some(fine) => if fine / 1_000_000_000_000_000_000 <= DURATION_MAX {
                parts matches Some((nanos, rest)) && nanos <= DURATION_MAX && rest
                    < 1_000_000_000_000_000_000 && fine == nanos * 1_000_000_000_000_000_000 + rest
            } else {
                parts is None
            },
            None => parts is None,
        },
{
    let ghost s = chars@.subrange(from as int, to as int);
    let at = find_point(chars, from, to);
    let start: usize = if at < to {
        at + 1
    } else {
        to
    };
    proof {
        assert(s.take(at - from) =~= chars@.subrange(from as int, at as int));
        if at < to {
            assert(s.skip(at - from + 1) =~= chars@.subrange(start as int, to as int));
        } else {
            assert(chars@.subrange(start as int, to as int) =~= Seq::empty());
        }
    }
    if at - from == 0 && to - start == 0 {
        return None;
    }
    if find_point(chars, start, to) < to {
        return None;
    }
    let whole: u128 = if at == from {
        0
    } else {
        match read_long_digits(chars, from, at, 0x10_0000_0000_0000_0000_0000) {
            Some(n) => n,
            None => {
                proof {
                    let ghost w = digits_value(chars@.subrange(from as int, at as int));
                    if w is Some {
                        let n = w->0;
                        assert(n * unit >= n * 1_000_000) by (nonlinear_arith)
                            requires
                                n >= 0,
                                unit >= 1_000_000,
                        ;
                    }
                }
                return None;
            },
        }
    };
    let fraction = read_fraction(chars, start, to);
    assert(whole * unit <= 0x10_0000_0000_0000_0000_0000 * 3_600_000_000_000) by (nonlinear_arith)
        requires
            whole <= 0x10_0000_0000_0000_0000_0000,
            unit <= 3_600_000_000_000,
    ;
    assert(fraction * unit <= 1_000_000_000_000_000_000 * 3_600_000_000_000) by (nonlinear_arith)
        requires
            fraction < 1_000_000_000_000_000_000,
            unit <= 3_600_000_000_000,
    ;
    let product: u128 = fraction * unit;
    let nanos: u128 = whole * unit + product / 1_000_000_000_000_000_000;
    let rest: u128 = product % 1_000_000_000_000_000_000;
    assert(scaled(s, unit as nat) == Some(
        (nanos * 1_000_000_000_000_000_000 + rest) as nat,
    ));
    if nanos <= DURATION_MAX {
        Some((nanos, rest))
    } else {
        None
    }
}

/// Parses OpenAI's reset durations, such as `1s`, `6m0s`, `120ms` or
/// `1h2m3.5s`, into nanoseconds.
pub fn parse_reset(text: &str) -> (nanos: Option<u128>)
    ensures
        nanos == reset_value(text@),
{
    let chars = chars_of(text);
    let (from, to) = trim(&chars);
    let ghost all = trimmed(text@);
    if from == to {
        return None;
    }
    let mut at: usize = from;
    let mut total: u128 = 0;
    let mut fine: u128 = 0;
    while at < to
        invariant
            from <= at <= to <= chars@.len(),
            all == chars@.subrange(from as int, to as int),
            all.len() > 0,
            all == trimmed(text@),
            total <= DURATION_MAX,
            fine < 1_000_000_000_000_000_000,
            reset_sum(
                chars@.subrange(at as int, to as int),
                (total * 1_000_000_000_000_000_000 + fine) as nat,
            ) == reset_sum(all, 0),
        decreases to - at,
    {
        let ghost s = chars@.subrange(at as int, to as int);
        let end = number_end(&chars, at, to);
        if end == at {
            return None;
        }
        proof {
            assert(s.take(end - at) =~= chars@.subrange(at as int, end as int));
            assert(s.skip(end - at) =~= chars@.subrange(end as int, to as int));
        }
        let (unit, length): (u128, usize) = if to - end >= 2 && chars[end] == 'm' && chars[end + 1]
            == 's' {
            (1_000_000, 2)
        } else if end < to && chars[end] == 'h' {
            (3_600_000_000_000, 1)
        } else if end < to && chars[end] == 'm' {
            (60_000_000_000, 1)
        } else if end < to && chars[end] == 's' {
            (1_000_000_000, 1)
        } else {
            return None;
        };
        assert(unit_at(s.skip(end - at)) == Some((unit as nat, length as nat)));
        assert(s.skip(end - at + length) =~= chars@.subrange(end + length, to as int));
        let ghost so_far = (total * 1_000_000_000_000_000_000 + fine) as nat;
        match read_scaled(&chars, at, end, unit) {
            None => {
                proof {
                    if let Some(n) = scaled(s.take(end - at), unit as nat) {
                        lemma_sum_grows(s.skip(end - at + length), so_far + n);
                    }
                }
                return None;
            },
            Some((nanos, rest)) => {
                proof {
                    let n = (nanos * 1_000_000_000_000_000_000 + rest) as nat;
                    lemma_sum_grows(s.skip(end - at + length), so_far + n);
                }
                total = total + nanos;
                fine = fine + rest;
                if fine >= 1_000_000_000_000_000_000 {
                    total = total + 1;
                    fine = fine - 1_000_000_000_000_000_000;
                }
                if total > DURATION_MAX {
                    return None;
                }
            },
        }
        at = end + length;
    }
    assert(chars@.subrange(at as int, to as int) =~= Seq::empty());
    assert((total * 1_000_000_000_000_000_000 + fine) / 1_000_000_000_000_000_000 == total);
    assert((total * 1_000_000_000_000_000_000 + fine) % 1_000_000_000_000_000_000 == fine);
    if fine > 500_000_000_000_000_000 || (fine == 500_000_000_000_000_000 && total % 2 == 1) {
        total = total + 1;
    }
    if total <= DURATION_MAX {
        Some(total)
    } else {
        None
    }
}

// ---------------------------------------------------------------------------
// A gate.

/// A header's text as whole seconds, in nanoseconds. The HTTP-date form of
/// `Retry-After` is ignored.
pub open spec fn seconds_value(text: Option<Seq<char>>) -> Option<nat> {
    match text {
        Some(s) => match unsigned_value(trimmed(s)) {
            Some(n) => Some(n as nat * 1_000_000_000),
            None => None,
        },
        None => None,
    }
}

/// The reset time that a header gives.
pub open spec fn reset_in(headers: Seq<(Seq<char>, Option<Seq<char>>)>, name: Seq<char>) -> Option<
    nat,
> {
    match header_value(headers, name, 0) {
        Some(text) => match reset_value(text) {
            Some(n) => Some(n as nat),
            None => None,
        },
        None => None,
    }
}

/// The longer of two waits that may be there.
pub open spec fn longer(a: Option<nat>, b: Option<nat>) -> Option<nat> {
    match (a, b) {
        (Some(x), Some(y)) => if x >= y {
            a
        } else {
            b
        },
        (Some(_), None) => a,
        _ => b,
    }
}

/// The longest of the waits a 429 gives, where it gives one.
pub open spec fn longest_wait(headers: Seq<(Seq<char>, Option<Seq<char>>)>) -> Option<nat> {
    longer(
        seconds_value(header_value(headers, "retry-after"@, 0)),
        longer(
            reset_in(headers, "x-ratelimit-reset-requests"@),
            reset_in(headers, "x-ratelimit-reset-tokens"@),
        ),
    )
}

/// How long a 429 closes a gate: until the longest reset the provider
/// gives, within bounds.
pub open spec fn limited_wait(headers: Seq<(Seq<char>, Option<Seq<char>>)>) -> u64 {
    match longest_wait(headers) {
        None => MIN_BACKOFF,
        Some(n) => if n < MIN_BACKOFF {
            MIN_BACKOFF
        } else if n > MAX_BACKOFF {
            MAX_BACKOFF
        } else {
            n as u64
        },
    }
}

/// How long a successful response closes a gate on account of one kind of
/// limit: until its window resets, where nothing is left in it.
pub open spec fn exhausted_wait(
    headers: Seq<(Seq<char>, Option<Seq<char>>)>,
    remaining: Seq<char>,
    reset: Seq<char>,
) -> Option<u64> {
    let left = match header_value(headers, remaining, 0) {
        Some(text) => unsigned_value(trimmed(text)),
        None => None,
    };
    if left == Some(0u64) {
        match reset_in(headers, reset) {
            Some(n) => Some(
                if n > MAX_BACKOFF {
                    MAX_BACKOFF
                } else {
                    n as u64
                },
            ),
            None => None,
        }
    } else {
        None
    }
}

/// A gate's time once it is to be closed until another: only ever later.
pub open spec fn closed_later(current: Option<u64>, until: u64) -> Option<u64> {
    match current {
        Some(t) => if until > t {
            Some(until)
        } else {
            current
        },
        None => Some(until),
    }
}

/// A gate's time after a wait from now, where there is one.
pub open spec fn closed_for_wait(current: Option<u64>, now: u64, wait: Option<u64>) -> Option<u64> {
    match wait {
        Some(w) => closed_later(current, (now + w) as u64),
        None => current,
    }
}

/// A gate's time after the headers of a successful response.
pub open spec fn after_headers(
    current: Option<u64>,
    headers: Seq<(Seq<char>, Option<Seq<char>>)>,
    now: u64,
) -> Option<u64> {
    let first = closed_for_wait(
        current,
        now,
        exhausted_wait(
            headers,
            "x-ratelimit-remaining-requests"@,
            "x-ratelimit-reset-requests"@,
        ),
    );
    closed_for_wait(
        first,
        now,
        exhausted_wait(
            headers,
            "x-ratelimit-remaining-tokens"@,
            "x-ratelimit-reset-tokens"@,
        ),
    )
}

/// How much longer a gate stays closed.
pub open spec fn remaining(closed_until: Option<u64>, now: u64) -> Option<u64> {
    match closed_until {
        Some(until) => if until > now {
            Some((until - now) as u64)
        } else {
            None
        },
        None => None,
    }
}

#[derive(Debug, Clone, Copy, PartialEq, Eq, Structural)]
pub struct RateLimitGate {
    pub closed_until: Option<u64>,
}

impl Default for RateLimitGate {
    fn default() -> (gate: RateLimitGate)
        ensures
            gate.closed_until is None,
    {
        RateLimitGate { closed_until: None }
    }
}

/// Reads a text as an unsigned number, without the white space at its ends.
fn trimmed_number(text: &str) -> (value: Option<u64>)
    ensures
        value == unsigned_value(trimmed(text@)),
{
    let chars = chars_of(text);
    let (from, to) = trim(&chars);
    read_unsigned(&chars, from, to)
}

/// The reset time that a header gives.
fn read_reset(headers: &Headers, name: &str) -> (wait: Option<u128>)
    ensures
        match wait {
            Some(n) => reset_in(headers@, name@) == Some(n as nat) && n <= DURATION_MAX,
            None => reset_in(headers@, name@) is None,
        },
{
    match headers.text(name) {
        Some(text) => parse_reset(text),
        None => None,
    }
}

/// The longer of two waits that may be there.
fn longer_wait(a: Option<u128>, b: Option<u128>) -> (wait: Option<u128>)
    ensures
        wait == match (a, b) {
            (Some(x), Some(y)) => if x >= y {
                a
            } else {
                b
            },
            (Some(_), None) => a,
            _ => b,
        },
{
    match (a, b) {
        (Some(x), Some(y)) => {
            if x >= y {
                a
            } else {
                b
            }
        },
        (Some(_), None) => a,
        _ => b,
    }
}

impl RateLimitGate {
    pub fn new() -> (gate: RateLimitGate)
        ensures
            gate.closed_until is None,
    {
        RateLimitGate { closed_until: None }
    }

    /// How much longer a gate stays closed, or `None` when open.
    pub fn closed_for(&self, now: u64) -> (left: Option<u64>)
        ensures
            left == remaining(self.closed_until, now),
    {
        match self.closed_until {
            Some(until) => {
                if until > now {
                    Some(until - now)
                } else {
                    None
                }
            },
            None => None,
        }
    }

    /// A 429: closed until the provider says the limit resets, or for
    /// [`MIN_BACKOFF`] when it gives no usable time.
    pub fn record_rate_limited(&mut self, headers: &Headers, now: u64)
        requires
            now + MAX_BACKOFF <= u64::MAX,
        ensures
            final(self).closed_until == closed_later(
                old(self).closed_until,
                (now + limited_wait(headers@)) as u64,
            ),
    {
        let retry_after: Option<u128> = match headers.text("retry-after") {
            Some(text) => match trimmed_number(text) {
                Some(n) => Some(n as u128 * 1_000_000_000),
                None => None,
            },
            None => None,
        };
        let given = longer_wait(
            retry_after,
            longer_wait(
                read_reset(headers, "x-ratelimit-reset-requests"),
                read_reset(headers, "x-ratelimit-reset-tokens"),
            ),
        );
        let wait: u64 = match given {
            None => MIN_BACKOFF,
            Some(n) => {
                if n < MIN_BACKOFF as u128 {
                    MIN_BACKOFF
                } else if n > MAX_BACKOFF as u128 {
                    MAX_BACKOFF
                } else {
                    n as u64
                }
            },
        };
        assert(wait == limited_wait(headers@));
        self.close_until(now + wait);
    }

    /// A successful response: if it reports no requests or no tokens left in
    /// the current window, close until that window resets.
    pub fn record_headers(&mut self, headers: &Headers, now: u64)
        requires
            now + MAX_BACKOFF <= u64::MAX,
        ensures
            final(self).closed_until == after_headers(old(self).closed_until, headers@, now),
    {
        self.close_if_exhausted(
            headers,
            "x-ratelimit-remaining-requests",
            "x-ratelimit-reset-requests",
            now,
        );
        self.close_if_exhausted(
            headers,
            "x-ratelimit-remaining-tokens",
            "x-ratelimit-reset-tokens",
            now,
        );
    }

    fn close_if_exhausted(&mut self, headers: &Headers, remaining: &str, reset: &str, now: u64)
        requires
            now + MAX_BACKOFF <= u64::MAX,
        ensures
            final(self).closed_until == closed_for_wait(
                old(self).closed_until,
                now,
                exhausted_wait(headers@, remaining@, reset@),
            ),
    {
        let left: Option<u64> = match headers.text(remaining) {
            Some(text) => trimmed_number(text),
            None => None,
        };
        let exhausted = match left {
            Some(n) => n == 0,
            None => false,
        };
        if exhausted {
            match read_reset(headers, reset) {
                Some(n) => {
                    let wait: u64 = if n > MAX_BACKOFF as u128 {
                        MAX_BACKOFF
                    } else {
                        n as u64
                    };
                    self.close_until(now + wait);
                },
                None => {},
            }
        }
    }

    /// Only ever extends the closed period, never shortens it.
    fn close_until(&mut self, until: u64)
        ensures
            final(self).closed_until == closed_later(old(self).closed_until, until),
    {
        let later = match self.closed_until {
            Some(current) => until > current,
            None => true,
        };
        if later {
            self.closed_until = Some(until);
        }
    }
}

/// Law: after a 429 a gate stays closed for what it was to be closed for, or
/// for the longest wait the 429 gives, between one second and five minutes,
/// whichever is longer. A 429 that gives no usable wait closes it for a
/// second.
pub proof fn a_429_closes_for_the_longest_wait(
    current: Option<u64>,
    headers: Seq<(Seq<char>, Option<Seq<char>>)>,
    now: u64,
)
    requires
        now + MAX_BACKOFF <= u64::MAX,
    ensures
        ({
            let after = closed_later(current, (now + limited_wait(headers)) as u64);
            let before: int = match remaining(current, now) {
                Some(left) => left as int,
                None => 0,
            };
            let given: int = match longest_wait(headers) {
                Some(wait) => wait as int,
                None => 1_000_000_000,
            };
            let bounded: int = if given < 1_000_000_000 {
                1_000_000_000
            } else if given > 300_000_000_000 {
                300_000_000_000
            } else {
                given
            };
            remaining(after, now) matches Some(left) && left == if before > bounded {
                before
            } else {
                bounded
            }
        }),
{
}

/// Whether a successful response says that nothing remains of a kind of limit.
pub open spec fn reports_none_left(
    headers: Seq<(Seq<char>, Option<Seq<char>>)>,
    remaining: Seq<char>,
) -> bool {
    header_value(headers, remaining, 0) matches Some(text) && unsigned_value(trimmed(text)) == Some(
        0u64,
    )
}

/// How long a wait given by a header holds: no longer than five minutes.
pub open spec fn at_most_five_minutes(wait: u128) -> int {
    if wait > 300_000_000_000 {
        300_000_000_000
    } else {
        wait as int
    }
}

/// The time that a header gives for a reset reads as this long.
pub open spec fn resets_in(
    headers: Seq<(Seq<char>, Option<Seq<char>>)>,
    reset: Seq<char>,
    wait: u128,
) -> bool {
    header_value(headers, reset, 0) matches Some(text) && reset_value(text) == Some(wait)
}

/// Law: after a successful response that reports no requests left and when
/// the requests reset, a gate stays closed at least until then, though no
/// longer than five minutes on that account, whatever is said of the tokens;
/// and the same of the tokens, whatever is said of the requests. Where neither
/// is spent nothing is closed, and nothing that was closed reopens.
pub proof fn an_exhausted_limit_closes_until_its_own_reset(
    current: Option<u64>,
    headers: Seq<(Seq<char>, Option<Seq<char>>)>,
    now: u64,
    wait: u128,
)
    requires
        now + MAX_BACKOFF <= u64::MAX,
    ensures
        ({
            let after = after_headers(current, headers, now);
            let no_requests = reports_none_left(headers, "x-ratelimit-remaining-requests"@);
            let no_tokens = reports_none_left(headers, "x-ratelimit-remaining-tokens"@);
            &&& no_requests && resets_in(headers, "x-ratelimit-reset-requests"@, wait) ==> (
            after matches Some(until) && until >= now + at_most_five_minutes(wait))
            &&& no_tokens && resets_in(headers, "x-ratelimit-reset-tokens"@, wait) ==> (
            after matches Some(until) && until >= now + at_most_five_minutes(wait))
            &&& !no_requests && !no_tokens ==> after == current
            &&& after == current || (no_requests && exists|d: u128| #[trigger]
                resets_in(headers, "x-ratelimit-reset-requests"@, d) && after == Some(
                    (now + at_most_five_minutes(d)) as u64,
                )) || (no_tokens && exists|d: u128| #[trigger]
                resets_in(headers, "x-ratelimit-reset-tokens"@, d) && after == Some(
                    (now + at_most_five_minutes(d)) as u64,
                ))
        }),
{
    let after = after_headers(current, headers, now);
    if after != current {
        let first = exhausted_wait(
            headers,
            "x-ratelimit-remaining-requests"@,
            "x-ratelimit-reset-requests"@,
        );
        let second = exhausted_wait(
            headers,
            "x-ratelimit-remaining-tokens"@,
            "x-ratelimit-reset-tokens"@,
        );
        if second is Some && after == Some((now + second->0) as u64) {
            let text = header_value(headers, "x-ratelimit-reset-tokens"@, 0)->0;
            let d = reset_value(text)->0;
            assert(resets_in(headers, "x-ratelimit-reset-tokens"@, d));
        } else {
            let text = header_value(headers, "x-ratelimit-reset-requests"@, 0)->0;
            let d = reset_value(text)->0;
            assert(resets_in(headers, "x-ratelimit-reset-requests"@, d));
        }
    }
}

/// Law: a limit that is reported exhausted without a usable time for its own
/// reset closes nothing on its account.
pub proof fn a_limit_without_a_reset_closes_nothing(
    current: Option<u64>,
    headers: Seq<(Seq<char>, Option<Seq<char>>)>,
    now: u64,
)
    requires
        header_value(headers, "x-ratelimit-reset-requests"@, 0) matches Some(text)
            ==> reset_value(text) is None,
        header_value(headers, "x-ratelimit-reset-tokens"@, 0) matches Some(text) ==> reset_value(
            text,
        ) is None,
    ensures
        after_headers(current, headers, now) == current,
{
}

/// Law: a gate is closed until its time and no longer, and says how much of
/// that is left.
pub proof fn a_gate_is_closed_until_its_time(closed_until: Option<u64>, now: u64)
    ensures
        remaining(closed_until, now) is Some <==> (closed_until matches Some(until) && now < until),
        remaining(closed_until, now) matches Some(left) ==> Some((now + left) as u64)
            == closed_until && left > 0,
{
}

/// Law: a header is read whatever the case of its name, from the first that
/// has it.
pub proof fn a_header_is_read_by_its_name(
    headers: Seq<(Seq<char>, Option<Seq<char>>)>,
    name: Seq<char>,
    i: int,
)
    requires
        0 <= i < headers.len(),
        same_letters(headers[i].0, name),
        forall|k: int| 0 <= k < i ==> !same_letters((#[trigger] headers[k]).0, name),
    ensures
        header_value(headers, name, 0) == headers[i].1,
{
    lemma_header_from(headers, name, i, 0);
}

proof fn lemma_header_from(
    headers: Seq<(Seq<char>, Option<Seq<char>>)>,
    name: Seq<char>,
    i: int,
    from: int,
)
    requires
        0 <= from <= i < headers.len(),
        same_letters(headers[i].0, name),
        forall|k: int| 0 <= k < i ==> !same_letters((#[trigger] headers[k]).0, name),
    ensures
        header_value(headers, name, from) == headers[i].1,
    decreases i - from,
{
    if from < i {
        lemma_header_from(headers, name, i, from + 1);
    }
}

/// Law: the longest wait is one of the usable ones, and none is longer.
pub proof fn the_longest_wait_is_the_longest(
    headers: Seq<(Seq<char>, Option<Seq<char>>)>,
    wait: Option<nat>,
)
    requires
        wait == seconds_value(header_value(headers, "retry-after"@, 0)) || wait == reset_in(
            headers,
            "x-ratelimit-reset-requests"@,
        ) || wait == reset_in(headers, "x-ratelimit-reset-tokens"@),
    ensures
        wait matches Some(n) ==> (longest_wait(headers) matches Some(longest) && longest >= n),
        longest_wait(headers) == seconds_value(header_value(headers, "retry-after"@, 0))
            || longest_wait(headers) == reset_in(headers, "x-ratelimit-reset-requests"@)
            || longest_wait(headers) == reset_in(headers, "x-ratelimit-reset-tokens"@),
{
}

/// Law: a shorter signal never reopens a gate early, and no signal closes
/// it for longer than the bound.
pub proof fn a_signal_only_extends_the_closing(
    current: Option<u64>,
    headers: Seq<(Seq<char>, Option<Seq<char>>)>,
    now: u64,
)
    requires
        now + MAX_BACKOFF <= u64::MAX,
    ensures
        ({
            let after = closed_later(current, (now + limited_wait(headers)) as u64);
            &&& current matches Some(t) ==> after matches Some(u) && u >= t
            &&& after matches Some(u) && u >= now + MIN_BACKOFF
            &&& after == current || (after matches Some(u) && u <= now + MAX_BACKOFF)
        }),
        ({
            let after = after_headers(current, headers, now);
            &&& current matches Some(t) ==> after matches Some(u) && u >= t
            &&& after == current || (after matches Some(u) && u <= now + MAX_BACKOFF)
        }),
{
}

/// What is left of a text is added to the number before it, in its unit.
pub open spec fn added(number: Seq<char>, unit: nat, rest: Seq<char>, total: nat) -> Option<nat> {
    match scaled(number, unit) {
        Some(fine) => reset_sum(rest, total + fine),
        None => None,
    }
}

proof fn lemma_part(number: Seq<char>, mark: Seq<char>, rest: Seq<char>, total: nat)
    requires
        number.len() > 0,
        forall|k: int| 0 <= k < number.len() ==> in_number(#[trigger] number[k]),
        mark.len() > 0,
        !in_number(mark[0]),
        unit_at(mark + rest) matches Some((_, length)) && length == mark.len(),
    ensures
        reset_sum(number + mark + rest, total) == added(
            number,
            (unit_at(mark + rest)->0).0,
            rest,
            total,
        ),
{
    let s = number + mark + rest;
    let n = number.len() as int;
    assert forall|k: int| 0 <= k < n implies in_number(#[trigger] s[k]) by {
        assert(s[k] == number[k]);
    }
    assert(s[n] == mark[0]);
    lemma_number_length(s, n);
    assert(s.skip(n) =~= mark + rest);
    assert(s.take(n) =~= number);
    assert(s.skip(n + mark.len() as int) =~= rest);
}

/// Law: a text of numbers with units gives the sum of its parts: an hour, a
/// minute, a second and a millisecond count what they are, in any order. A
/// number without a unit, and anything that is neither, gives nothing.
pub proof fn a_reset_is_the_sum_of_its_parts(
    number: Seq<char>,
    rest: Seq<char>,
    total: nat,
)
    requires
        number.len() > 0,
        forall|k: int| 0 <= k < number.len() ==> in_number(#[trigger] number[k]),
    ensures
        reset_sum(Seq::empty(), total) == Some(total),
        reset_sum(number + seq!['h'] + rest, total) == added(
            number,
            3_600_000_000_000,
            rest,
            total,
        ),
        !(rest.len() > 0 && rest[0] == 's') ==> reset_sum(number + seq!['m'] + rest, total)
            == added(number, 60_000_000_000, rest, total),
        reset_sum(number + seq!['s'] + rest, total) == added(number, 1_000_000_000, rest, total),
        reset_sum(number + seq!['m', 's'] + rest, total) == added(number, 1_000_000, rest, total),
        rest.len() == 0 || !in_number(rest[0]) && rest[0] != 'h' && rest[0] != 'm' && rest[0]
            != 's' ==> reset_sum(number + rest, total) is None,
        rest.len() > 0 && !in_number(rest[0]) ==> reset_sum(rest, total) is None,
{
    let h = seq!['h'];
    let m = seq!['m'];
    let s = seq!['s'];
    let ms = seq!['m', 's'];
    assert((h + rest)[0] == 'h');
    assert((m + rest)[0] == 'm');
    assert(rest.len() > 0 ==> (m + rest)[1] == rest[0]);
    assert((s + rest)[0] == 's');
    assert((ms + rest)[0] == 'm' && (ms + rest)[1] == 's');
    lemma_part(number, h, rest, total);
    if !(rest.len() > 0 && rest[0] == 's') {
        lemma_part(number, m, rest, total);
    }
    lemma_part(number, s, rest, total);
    lemma_part(number, ms, rest, total);
    let n = number.len() as int;
    let all = number + rest;
    if rest.len() == 0 || !in_number(rest[0]) {
        assert forall|k: int| 0 <= k < n implies in_number(#[trigger] all[k]) by {
            assert(all[k] == number[k]);
        }
        assert(rest.len() > 0 ==> all[n] == rest[0]);
        lemma_number_length(all, n);
        assert(all.skip(n) =~= rest);
    }
    if rest.len() > 0 && !in_number(rest[0]) {
        lemma_number_length(rest, 0);
    }
}

proof fn lemma_digits_no_point(s: Seq<char>)
    requires
        digits_value(s) is Some,
    ensures
        forall|k: int| 0 <= k < s.len() ==> (#[trigger] s[k]) != '.',
    decreases s.len(),
{
    if s.len() > 1 {
        lemma_digits_no_point(s.drop_last());
        assert forall|k: int| 0 <= k < s.len() implies (#[trigger] s[k]) != '.' by {
            if k < s.len() - 1 {
                assert(s.drop_last()[k] == s[k]);
            } else {
                assert(s.last() == s[k]);
            }
        }
    } else {
        assert(s.last() == s[0]);
    }
}

proof fn lemma_fraction_of_digits(s: Seq<char>, n: nat)
    requires
        digits_value(s) is Some,
        n <= s.len(),
        n > 0,
    ensures
        digits_value(s.take(n as int)) == Some(fraction_value(s, n)),
    decreases n,
{
    lemma_prefix_of_digits(s, n as int);
    let front = s.take(n as int);
    assert(front.last() == s[n - 1]);
    if n > 1 {
        assert(front.drop_last() =~= s.take(n - 1));
        lemma_fraction_of_digits(s, (n - 1) as nat);
    } else {
        assert(fraction_value(s, 0) == 0);
    }
}

proof fn lemma_prefix_of_digits(s: Seq<char>, n: int)
    requires
        digits_value(s) is Some,
        0 < n <= s.len(),
    ensures
        digits_value(s.take(n)) is Some,
    decreases s.len(),
{
    if n < s.len() {
        lemma_prefix_of_digits(s.drop_last(), n);
        assert(s.drop_last().take(n) =~= s.take(n));
    } else {
        assert(s.take(n) =~= s);
    }
}

proof fn lemma_fraction_padded(s: Seq<char>, n: nat)
    requires
        n >= s.len(),
    ensures
        fraction_value(s, n) == fraction_value(s, s.len()) * power_of_ten((n - s.len()) as nat),
    decreases n,
{
    if n > s.len() {
        let m = (n - 1) as nat;
        lemma_fraction_padded(s, m);
        let a = fraction_value(s, s.len());
        let p = power_of_ten((m - s.len()) as nat);
        assert((a * p) * 10 == a * (10 * p)) by (nonlinear_arith);
        assert((n - s.len()) as nat - 1 == m - s.len());
        assert(power_of_ten((n - s.len()) as nat) == 10 * p);
        assert(fraction_value(s, n) == fraction_value(s, m) * 10);
    } else {
        let a = fraction_value(s, s.len());
        assert(power_of_ten(0) == 1);
        assert(a * 1 == a);
    }
}

/// Law: a whole number counts its unit that many times, and a fraction the part
/// of it that its digits write, to eighteen places.
pub proof fn a_number_counts_its_unit(
    whole: Seq<char>,
    fraction: Seq<char>,
    unit: nat,
    n: nat,
    part: nat,
)
    requires
        digits_value(whole) == Some(n),
        digits_value(fraction) == Some(part),
        fraction.len() <= 18,
    ensures
        scaled(whole, unit) == Some((n * unit) * 1_000_000_000_000_000_000),
        scaled(whole + seq!['.'], unit) == scaled(whole, unit),
        scaled(whole + seq!['.'] + fraction, unit) == Some(
            (n * unit) * 1_000_000_000_000_000_000 + (part * power_of_ten(
                (18 - fraction.len()) as nat,
            )) * unit,
        ),
        scaled(seq!['.'] + fraction, unit) == Some(
            (part * power_of_ten((18 - fraction.len()) as nat)) * unit,
        ),
        scaled(seq!['.'], unit) is None,
        scaled(whole + seq!['.'] + fraction + seq!['.'], unit) is None,
{
    let point = seq!['.'];
    lemma_digits_no_point(whole);
    lemma_digits_no_point(fraction);
    let none = Seq::<char>::empty();
    lemma_point_at(none, 0);
    lemma_point_at(fraction, fraction.len() as int);
    lemma_fraction_padded(none, 18);
    lemma_fraction_padded(fraction, 18);
    lemma_fraction_of_digits(fraction, fraction.len());
    assert(fraction.take(fraction.len() as int) =~= fraction);
    assert(fraction_value(none, 0) == 0);
    let w = whole.len() as int;
    // A whole number alone.
    lemma_point_at(whole, w);
    assert(whole.take(w) =~= whole);
    assert(0 * unit == 0);
    assert(0 * power_of_ten(18) == 0);
    assert(fraction_value(none, 18) == 0);
    // One with a point behind it.
    let pointed = whole + point;
    assert forall|k: int| 0 <= k < w implies (#[trigger] pointed[k]) != '.' by {
        assert(pointed[k] == whole[k]);
    }
    assert(pointed[w] == '.');
    lemma_point_at(pointed, w);
    assert(pointed.take(w) =~= whole);
    assert(pointed.skip(w + 1) =~= none);
    // One with a fraction.
    let both = whole + point + fraction;
    assert forall|k: int| 0 <= k < w implies (#[trigger] both[k]) != '.' by {
        assert(both[k] == whole[k]);
    }
    assert(both[w] == '.');
    lemma_point_at(both, w);
    assert(both.take(w) =~= whole);
    assert(both.skip(w + 1) =~= fraction);
    // A fraction alone, and a point alone.
    let alone = point + fraction;
    assert(alone[0] == '.');
    lemma_point_at(alone, 0);
    assert(alone.take(0) =~= none);
    assert(alone.skip(1) =~= fraction);
    assert(0 * unit == 0);
    lemma_point_at(point, 0);
    assert(point.take(0) =~= none);
    assert(point.skip(1) =~= none);
    // A second point.
    let twice = whole + point + fraction + point;
    assert forall|k: int| 0 <= k < w implies (#[trigger] twice[k]) != '.' by {
        assert(twice[k] == whole[k]);
    }
    assert(twice[w] == '.');
    lemma_point_at(twice, w);
    let tail = twice.skip(w + 1);
    assert(tail =~= fraction + point);
    let f = fraction.len() as int;
    assert forall|k: int| 0 <= k < f implies (#[trigger] tail[k]) != '.' by {
        assert(tail[k] == fraction[k]);
    }
    assert(tail[f] == '.');
    lemma_point_at(tail, f);
}

/// Law: a time is told in whole nanoseconds, the nearest ones, and of two as
/// near the even one.
pub proof fn a_time_is_rounded_to_the_nearest(fine: nat)
    ensures
        ({
            let off = rounded(fine) * 1_000_000_000_000_000_000 - fine;
            &&& -500_000_000_000_000_000 <= off <= 500_000_000_000_000_000
            &&& off == 500_000_000_000_000_000 || off == -500_000_000_000_000_000 ==> rounded(fine)
                % 2 == 0
        }),
{
}

} // verus!
