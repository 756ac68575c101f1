//! The OpenRouter route: a second free provider, counted in requests.
//!
//! Nothing here reserves tokens. OpenRouter's free allowance is a number of
//! requests a day, and a request that fails spends one just the same, so the
//! slot is taken from the ledger's request counter before sending and never
//! given back.
//!
//! What may be sent is decided before sending, never by trying. OpenRouter's
//! Responses endpoint takes streaming, reasoning, function tools, and
//! namespaces of function tools, but the providers behind it refuse `custom`
//! tools, which is what Codex declares `apply_patch` as. A request whose shape
//! no configured model is known to accept is not sent: finding out by being
//! refused would cost one of the fifty.
use vstd::prelude::*;
use vstd::string::*;
use vstd::utf8::*;

use crate::admission::{beginning, clip};
use crate::codec::{json_document, read_json};
use crate::config::{OpenRouterModel, RouteModelView};
use crate::json::{json_get, lemma_array_view, option_view, Json, JsonView, Number, NumberView};
use crate::rate_limit::{find_point, point_at};
use crate::text::{
    chars_of, decimal_text, digit_value, integer_value, push_decimal, push_signed, read_integer,
    signed_text, string_of,
};
use crate::tools::ToolUsage;
use crate::upstream::{with_detail, BaseUrlError};

verus! {

// ---------------------------------------------------------------------------
// The account.

/// What the account looks like right now. The route opens only on the shape
/// that makes paid usage impossible.
#[derive(Debug, PartialEq, Eq)]
pub struct AccountCheck {
    pub free_tier: bool,
    pub total_credits: Number,
    pub total_usage: Number,
    /// `None` when no management key is configured, so BYOK was not checked.
    pub byok_endpoints: Option<usize>,
}

pub struct AccountView {
    pub free_tier: bool,
    pub total_credits: NumberView,
    pub total_usage: NumberView,
    pub byok_endpoints: Option<usize>,
}

impl View for AccountCheck {
    type V = AccountView;

    open spec fn view(&self) -> AccountView {
        AccountView {
            free_tier: self.free_tier,
            total_credits: self.total_credits@,
            total_usage: self.total_usage@,
            byok_endpoints: self.byok_endpoints,
        }
    }
}

/// Whether the text of a number has a digit other than zero before its
/// exponent, from a position on.
pub open spec fn has_value(text: Seq<char>, from: int) -> bool
    decreases text.len() - from,
{
    if from < 0 || from >= text.len() || text[from] == 'e' || text[from] == 'E' {
        false
    } else if digit_value(text[from]) matches Some(d) && d > 0 {
        true
    } else {
        has_value(text, from + 1)
    }
}

/// Whether a number is above zero.
pub open spec fn above_zero(number: NumberView) -> bool {
    match number {
        NumberView::Unsigned(n) => n > 0,
        NumberView::Negative(_) => false,
        NumberView::Real(text) => !(text.len() > 0 && text[0] == '-') && has_value(text, 0),
    }
}

fn is_above_zero(number: &Number) -> (yes: bool)
    ensures
        yes == above_zero(number@),
{
    match number {
        Number::Unsigned(n) => *n > 0,
        Number::Negative(_) => false,
        Number::Real(text) => {
            let chars = chars_of(text.as_str());
            if chars.len() > 0 && chars[0] == '-' {
                return false;
            }
            let mut i: usize = 0;
            while i < chars.len() && chars[i] != 'e' && chars[i] != 'E'
                invariant
                    i <= chars@.len(),
                    chars@ == text@,
                    *number == Number::Real(*text),
                    !(text@.len() > 0 && text@[0] == '-'),
                    has_value(text@, i as int) == has_value(text@, 0),
                decreases chars.len() - i,
            {
                let code: u32 = chars[i] as u32;
                if 49 <= code && code <= 57 {
                    assert(digit_value(text@[i as int]) matches Some(d) && d > 0);
                    return true;
                }
                i = i + 1;
            }
            false
        },
    }
}

/// A text without the zeros at its end.
pub open spec fn without_zeros(s: Seq<char>) -> Seq<char>
    decreases s.len(),
{
    if s.len() > 0 && s.last() == '0' {
        without_zeros(s.drop_last())
    } else {
        s
    }
}

pub open spec fn zeros(n: int) -> Seq<char> {
    Seq::new(n as nat, |i: int| '0')
}

/// Whole digits with a fraction, where there is more to it than zeros.
pub open spec fn with_fraction(whole: Seq<char>, fraction: Seq<char>) -> Seq<char> {
    let kept = without_zeros(fraction);
    if kept.len() == 0 {
        whole
    } else {
        whole + "."@ + kept
    }
}

/// Digits with a point after the first `places` of them.
pub open spec fn pointed(digits: Seq<char>, places: int) -> Seq<char> {
    if places <= 0 {
        with_fraction("0"@, zeros(-places) + digits)
    } else if places >= digits.len() {
        digits + zeros(places - digits.len())
    } else {
        with_fraction(digits.take(places), digits.skip(places))
    }
}

/// Where the exponent of a number's text starts, or the length.
pub open spec fn exponent_at(s: Seq<char>) -> nat
    decreases s.len(),
{
    if s.len() > 0 && s[0] != 'e' && s[0] != 'E' {
        1 + exponent_at(s.drop_first())
    } else {
        0
    }
}

/// The value that a number's text writes, without an exponent, and without a
/// fraction of zeros. A text with an exponent that no double has stays as it
/// is.
pub open spec fn plain_text(s: Seq<char>) -> Seq<char> {
    let at = exponent_at(s) as int;
    let mantissa = s.take(at);
    let point = point_at(mantissa) as int;
    let fraction = if point < mantissa.len() {
        mantissa.skip(point + 1)
    } else {
        Seq::empty()
    };
    let exponent = if at < s.len() {
        integer_value(s.skip(at + 1))
    } else {
        Some(0i64)
    };
    match exponent {
        Some(e) if -400 <= e <= 400 => pointed(mantissa.take(point) + fraction, point + e),
        _ => s,
    }
}

/// A number as its value is shown.
pub open spec fn number_text(number: NumberView) -> Seq<char> {
    match number {
        NumberView::Unsigned(n) => decimal_text(n as nat),
        NumberView::Negative(n) => signed_text(n as int),
        NumberView::Real(text) => plain_text(text),
    }
}

proof fn lemma_exponent_at(s: Seq<char>, n: int)
    requires
        0 <= n <= s.len(),
        forall|k: int| 0 <= k < n ==> (#[trigger] s[k]) != 'e' && s[k] != 'E',
        n < s.len() ==> s[n] == 'e' || s[n] == 'E',
    ensures
        exponent_at(s) == n,
    decreases s.len(),
{
    if n > 0 {
        let rest = s.drop_first();
        assert forall|k: int| 0 <= k < n - 1 implies (#[trigger] rest[k]) != 'e' && rest[k]
            != 'E' by {
            assert(rest[k] == s[k + 1]);
        }
        assert(n < s.len() ==> rest[n - 1] == s[n]);
        lemma_exponent_at(rest, n - 1);
    }
}

/// Appends a fraction, where there is more to it than zeros.
fn push_fraction(out: &mut String, fraction: &Vec<char>)
    ensures
        final(out)@ == with_fraction(old(out)@, fraction@),
{
    let mut end: usize = fraction.len();
    assert(fraction@.take(end as int) =~= fraction@);
    while end > 0 && fraction[end - 1] == '0'
        invariant
            end <= fraction@.len(),
            without_zeros(fraction@.take(end as int)) == without_zeros(fraction@),
        decreases end,
    {
        assert(fraction@.take(end as int).drop_last() =~= fraction@.take(end - 1));
        end = end - 1;
    }
    assert(without_zeros(fraction@) == fraction@.take(end as int));
    assert(fraction@.take(end as int) =~= fraction@.subrange(0, end as int));
    if end > 0 {
        let kept = string_of(fraction, 0, end);
        out.push_str(".");
        out.push_str(kept.as_str());
    }
}

/// Digits with a point after the first `places` of them.
fn point_text(digits: &Vec<char>, places: i128) -> (text: String)
    requires
        places >= -400,
        places - digits@.len() <= 400,
    ensures
        text@ == pointed(digits@, places as int),
{
    let length: usize = digits.len();
    if places <= 0 {
        let mut fraction: Vec<char> = Vec::new();
        let mut i: i128 = places;
        while i < 0
            invariant
                places <= i <= 0,
                fraction@ == zeros(i - places),
            decreases -i,
        {
            fraction.push('0');
            i = i + 1;
            assert(fraction@ =~= zeros(i - places));
        }
        let mut k: usize = 0;
        while k < length
            invariant
                k <= length == digits@.len(),
                fraction@ == zeros(-places) + digits@.take(k as int),
            decreases length - k,
        {
            fraction.push(digits[k]);
            k = k + 1;
            assert(fraction@ =~= zeros(-places) + digits@.take(k as int));
        }
        assert(digits@.take(k as int) =~= digits@);
        let mut text = String::from_str("0");
        push_fraction(&mut text, &fraction);
        text
    } else if places >= length as i128 {
        let mut text = string_of(digits, 0, length);
        assert(digits@.subrange(0, length as int) =~= digits@);
        let mut i: i128 = length as i128;
        assert(text@ =~= digits@ + zeros(0));
        while i < places
            invariant
                length <= i <= places,
                length == digits@.len(),
                text@ == digits@ + zeros(i - length),
            decreases places - i,
        {
            text.push('0');
            i = i + 1;
            assert(text@ =~= digits@ + zeros(i - length));
        }
        text
    } else {
        let at: usize = places as usize;
        let mut text = string_of(digits, 0, at);
        assert(digits@.subrange(0, at as int) =~= digits@.take(at as int));
        let mut fraction: Vec<char> = Vec::new();
        let mut k: usize = at;
        while k < length
            invariant
                at <= k <= length == digits@.len(),
                fraction@ == digits@.subrange(at as int, k as int),
            decreases length - k,
        {
            fraction.push(digits[k]);
            k = k + 1;
            assert(fraction@ =~= digits@.subrange(at as int, k as int));
        }
        assert(fraction@ =~= digits@.skip(at as int));
        push_fraction(&mut text, &fraction);
        text
    }
}

/// The value that a number's text writes.
fn plain(text: &str) -> (out: String)
    ensures
        out@ == plain_text(text@),
{
    let chars = chars_of(text);
    let length: usize = chars.len();
    let mut at: usize = 0;
    while at < length && chars[at] != 'e' && chars[at] != 'E'
        invariant
            at <= length == chars@.len(),
            forall|k: int| 0 <= k < at ==> (#[trigger] chars@[k]) != 'e' && chars@[k] != 'E',
        decreases length - at,
    {
        at = at + 1;
    }
    proof {
        lemma_exponent_at(chars@, at as int);
    }
    let exponent: Option<i64> = if at < length {
        assert(chars@.skip(at + 1) =~= chars@.subrange(at + 1, length as int));
        read_integer(&chars, at + 1, length)
    } else {
        Some(0)
    };
    let point = find_point(&chars, 0, at);
    assert(chars@.take(at as int) =~= chars@.subrange(0, at as int));
    match exponent {
        Some(e) if -400 <= e && e <= 400 => {
            let ghost mantissa = chars@.take(at as int);
            let ghost fraction = if point < at {
                mantissa.skip(point + 1)
            } else {
                Seq::empty()
            };
            let mut digits: Vec<char> = Vec::new();
            let mut k: usize = 0;
            while k < at
                invariant
                    k <= at <= chars@.len(),
                    point <= at,
                    mantissa == chars@.take(at as int),
                    digits@ == if k <= point {
                        mantissa.take(k as int)
                    } else {
                        mantissa.take(point as int) + mantissa.subrange(point + 1, k as int)
                    },
                decreases at - k,
            {
                if k != point {
                    digits.push(chars[k]);
                }
                k = k + 1;
                if k <= point {
                    assert(digits@ =~= mantissa.take(k as int));
                } else {
                    assert(digits@ =~= mantissa.take(point as int) + mantissa.subrange(
                        point + 1,
                        k as int,
                    ));
                }
            }
            assert(digits@ =~= mantissa.take(point as int) + fraction);
            point_text(&digits, point as i128 + e as i128)
        },
        _ => text.to_owned(),
    }
}

/// Whether the zero-balance barrier holds: nothing bought, nothing owed, and
/// no key of the operator's own behind which paid usage could run.
///
/// Auto top-up has no endpoint that reports it, so it is not checked directly.
/// A top-up that fired would show up as credits above zero at the next check.
pub open spec fn account_is_safe(account: AccountView) -> bool {
    &&& account.free_tier
    &&& !above_zero(account.total_credits)
    &&& account.byok_endpoints is None || account.byok_endpoints == Some(0usize)
}

/// Two reasons, one after the other.
pub open spec fn joined_reasons(a: Seq<char>, b: Seq<char>) -> Seq<char> {
    if a.len() == 0 {
        b
    } else if b.len() == 0 {
        a
    } else {
        a + "; "@ + b
    }
}

/// Why an account is not safe.
pub open spec fn unsafe_reasons(account: AccountView) -> Seq<char> {
    let tier = if account.free_tier {
        Seq::empty()
    } else {
        "the key is no longer on the free tier"@
    };
    let credits = if above_zero(account.total_credits) {
        "the account holds "@ + number_text(account.total_credits) + " in credits"@
    } else {
        Seq::empty()
    };
    let byok = if account.byok_endpoints matches Some(n) && n > 0 {
        "the account has BYOK endpoints configured"@
    } else {
        Seq::empty()
    };
    joined_reasons(joined_reasons(tier, credits), byok)
}

/// Joins two reasons.
fn join_reasons(a: String, b: String) -> (out: String)
    ensures
        out@ == joined_reasons(a@, b@),
{
    let first = chars_of(a.as_str());
    let second = chars_of(b.as_str());
    if first.len() == 0 {
        return b;
    }
    if second.len() == 0 {
        return a;
    }
    let mut out = a;
    out.push_str("; ");
    out.push_str(b.as_str());
    out
}

/// The empty text.
fn nothing() -> (out: String)
    ensures
        out@ == Seq::<char>::empty(),
{
    let out = String::new();
    assert(out@ =~= Seq::empty());
    out
}

impl AccountCheck {
    /// Whether the zero-balance barrier holds.
    pub fn safe(&self) -> (yes: bool)
        ensures
            yes == account_is_safe(self@),
    {
        let byok = match self.byok_endpoints {
            Some(n) => n == 0,
            None => true,
        };
        self.free_tier && !is_above_zero(&self.total_credits) && byok
    }

    pub fn why_unsafe(&self) -> (why: Option<String>)
        ensures
            match why {
                Some(text) => !account_is_safe(self@) && text@ == unsafe_reasons(self@),
                None => account_is_safe(self@),
            },
    {
        if self.safe() {
            return None;
        }
        let tier = if self.free_tier {
            nothing()
        } else {
            String::from_str("the key is no longer on the free tier")
        };
        let credits = if is_above_zero(&self.total_credits) {
            let mut text = String::from_str("the account holds ");
            match &self.total_credits {
                Number::Unsigned(n) => push_decimal(&mut text, *n as u128),
                Number::Negative(n) => push_signed(&mut text, *n),
                Number::Real(written) => {
                    let value = plain(written.as_str());
                    text.push_str(value.as_str());
                },
            }
            text.push_str(" in credits");
            text
        } else {
            nothing()
        };
        let has_byok = match self.byok_endpoints {
            Some(n) => n > 0,
            None => false,
        };
        let byok = if has_byok {
            String::from_str("the account has BYOK endpoints configured")
        } else {
            nothing()
        };
        Some(join_reasons(join_reasons(tier, credits), byok))
    }
}

// ---------------------------------------------------------------------------
// Reading the account.

/// Whether the key is on the free tier; `None` where the answer does not say.
pub open spec fn free_tier_of(key: JsonView) -> Option<bool> {
    match json_get(key, "data"@) {
        Some(data) => match json_get(data, "is_free_tier"@) {
            Some(JsonView::Bool(free)) => Some(free),
            _ => None,
        },
        None => None,
    }
}

pub fn free_tier_in(key: &Json) -> (free: Option<bool>)
    ensures
        free == free_tier_of(key@),
{
    match key.get("data") {
        Some(data) => match data.get("is_free_tier") {
            Some(Json::Bool(free)) => Some(*free),
            _ => None,
        },
        None => None,
    }
}

/// A number of the credits.
pub open spec fn number_in(data: JsonView, name: Seq<char>) -> Option<NumberView> {
    match json_get(data, name) {
        Some(JsonView::Number(number)) => Some(number),
        _ => None,
    }
}

/// The credits bought and used; `None` where the answer does not say how many
/// were bought. How many were used decides nothing, and is zero where the
/// answer does not say.
pub open spec fn credits_of(credits: JsonView) -> Option<(NumberView, NumberView)> {
    match json_get(credits, "data"@) {
        Some(data) => match number_in(data, "total_credits"@) {
            Some(bought) => Some(
                (
                    bought,
                    match number_in(data, "total_usage"@) {
                        Some(used) => used,
                        None => NumberView::Unsigned(0),
                    },
                ),
            ),
            None => None,
        },
        None => None,
    }
}

fn read_number(data: &Json, name: &str) -> (number: Option<Number>)
    ensures
        match number {
            Some(n) => number_in(data@, name@) == Some(n@),
            None => number_in(data@, name@) is None,
        },
{
    match data.get(name) {
        Some(Json::Number(number)) => Some(number.copy()),
        _ => None,
    }
}

pub fn credits_in(credits: &Json) -> (numbers: Option<(Number, Number)>)
    ensures
        match numbers {
            Some((bought, used)) => credits_of(credits@) == Some((bought@, used@)),
            None => credits_of(credits@) is None,
        },
{
    match credits.get("data") {
        Some(data) => match read_number(data, "total_credits") {
            Some(bought) => {
                let used = match read_number(data, "total_usage") {
                    Some(used) => used,
                    None => Number::Unsigned(0),
                };
                Some((bought, used))
            },
            None => None,
        },
        None => None,
    }
}

/// How many BYOK endpoints a listing names; `None` where it is no listing.
pub open spec fn byok_of(listing: JsonView) -> Option<nat> {
    match json_get(listing, "data"@) {
        Some(JsonView::Array(items)) => Some(items.len()),
        _ => None,
    }
}

pub fn byok_in(listing: &Json) -> (count: Option<usize>)
    ensures
        match count {
            Some(n) => byok_of(listing@) == Some(n as nat),
            None => byok_of(listing@) is None,
        },
{
    match listing.get("data") {
        Some(Json::Array(items)) => {
            proof {
                lemma_array_view(*items);
            }
            Some(items.len())
        },
        _ => None,
    }
}

/// Why an answer cannot be used.
#[derive(Debug, PartialEq, Eq)]
pub enum AnswerFault {
    /// Not a success, with the beginning of its body.
    Status { status: u16, body: String },
    Unreadable,
}

pub enum AnswerFaultView {
    Status { status: u16, body: Seq<char> },
    Unreadable,
}

impl View for AnswerFault {
    type V = AnswerFaultView;

    open spec fn view(&self) -> AnswerFaultView {
        match *self {
            AnswerFault::Status { status, body } => AnswerFaultView::Status { status, body: body@ },
            AnswerFault::Unreadable => AnswerFaultView::Unreadable,
        }
    }
}

/// The document an answer carries.
pub open spec fn answer_document(status: u16, body: Seq<char>, most: nat) -> Result<
    JsonView,
    AnswerFaultView,
> {
    if !(200 <= status <= 299) {
        Err(AnswerFaultView::Status { status, body: beginning(body, most) })
    } else {
        match json_document(encode_utf8(body)) {
            Ok(value) => Ok(value),
            Err(_) => Err(AnswerFaultView::Unreadable),
        }
    }
}

pub open spec fn document_answer_view(result: Result<Json, AnswerFault>) -> Result<
    JsonView,
    AnswerFaultView,
> {
    match result {
        Ok(value) => Ok(value@),
        Err(fault) => Err(fault@),
    }
}

/// The document an answer carries; of the body of one that is not a success,
/// `most` characters are kept.
pub fn read_answer(status: u16, body: &str, most: usize) -> (result: Result<Json, AnswerFault>)
    ensures
        document_answer_view(result) == answer_document(status, body@, most as nat),
{
    if !(200 <= status && status <= 299) {
        return Err(AnswerFault::Status { status, body: clip(body, most) });
    }
    match read_json(body.as_bytes()) {
        Ok(value) => Ok(value),
        Err(_) => Err(AnswerFault::Unreadable),
    }
}

#[derive(Debug, PartialEq, Eq)]
pub enum OpenRouterError {
    InvalidBaseUrl(String),
    InsecureBaseUrl(String),
    Build(String),
    Transport(String),
    Status { status: u16, body: String },
    Unreadable,
}

/// What went wrong, in words.
pub open spec fn openrouter_text(error: OpenRouterError) -> Seq<char> {
    match error {
        OpenRouterError::InvalidBaseUrl(url) => "the OpenRouter base URL is invalid: "@ + url@,
        OpenRouterError::InsecureBaseUrl(url) =>
            "the OpenRouter base URL must use https unless it is loopback: "@ + url@,
        OpenRouterError::Build(detail) => "could not build the OpenRouter client: "@ + detail@,
        OpenRouterError::Transport(detail) => "the OpenRouter request failed: "@ + detail@,
        OpenRouterError::Status { status, body } => "OpenRouter answered with status "@ + decimal_text(
            status as nat,
        ) + ": "@ + body@,
        OpenRouterError::Unreadable =>
            "OpenRouter answered with a body this code cannot read"@,
    }
}

impl OpenRouterError {
    pub fn message(&self) -> (text: String)
        ensures
            text@ == openrouter_text(*self),
    {
        match self {
            OpenRouterError::InvalidBaseUrl(url) => with_detail(
                "the OpenRouter base URL is invalid: ",
                url,
            ),
            OpenRouterError::InsecureBaseUrl(url) => with_detail(
                "the OpenRouter base URL must use https unless it is loopback: ",
                url,
            ),
            OpenRouterError::Build(detail) => with_detail(
                "could not build the OpenRouter client: ",
                detail,
            ),
            OpenRouterError::Transport(detail) => with_detail(
                "the OpenRouter request failed: ",
                detail,
            ),
            OpenRouterError::Status { status, body } => {
                let mut text = String::from_str("OpenRouter answered with status ");
                push_decimal(&mut text, *status as u128);
                text.push_str(": ");
                text.push_str(body.as_str());
                text
            },
            OpenRouterError::Unreadable => String::from_str(
                "OpenRouter answered with a body this code cannot read",
            ),
        }
    }

    /// The error of a base URL that is not used.
    pub fn of_base(error: BaseUrlError) -> (out: OpenRouterError)
        ensures
            match error {
                BaseUrlError::Invalid(url) => out == OpenRouterError::InvalidBaseUrl(url),
                BaseUrlError::Insecure(url) => out == OpenRouterError::InsecureBaseUrl(url),
            },
    {
        match error {
            BaseUrlError::Invalid(url) => OpenRouterError::InvalidBaseUrl(url),
            BaseUrlError::Insecure(url) => OpenRouterError::InsecureBaseUrl(url),
        }
    }

    /// The error of an answer that cannot be used.
    pub fn of_fault(fault: AnswerFault) -> (out: OpenRouterError)
        ensures
            match fault {
                AnswerFault::Status { status, body } => out == (OpenRouterError::Status {
                    status,
                    body,
                }),
                AnswerFault::Unreadable => out == OpenRouterError::Unreadable,
            },
    {
        match fault {
            AnswerFault::Status { status, body } => OpenRouterError::Status { status, body },
            AnswerFault::Unreadable => OpenRouterError::Unreadable,
        }
    }
}

/// The account that the answers about it describe. An answer that leaves open
/// whether the account could pay is unreadable.
pub open spec fn account_of(key: JsonView, credits: JsonView, byok: Option<JsonView>) -> Result<
    AccountView,
    AnswerFaultView,
> {
    match (free_tier_of(key), credits_of(credits)) {
        (Some(free_tier), Some((total_credits, total_usage))) => match byok {
            None => Ok(
                AccountView { free_tier, total_credits, total_usage, byok_endpoints: None },
            ),
            Some(listing) => match byok_of(listing) {
                Some(n) => Ok(
                    AccountView {
                        free_tier,
                        total_credits,
                        total_usage,
                        byok_endpoints: Some(n as usize),
                    },
                ),
                None => Err(AnswerFaultView::Unreadable),
            },
        },
        _ => Err(AnswerFaultView::Unreadable),
    }
}

impl AccountCheck {
    /// The account that the answers about it describe: of the key, of the
    /// credits, and, where a management key is configured, of the BYOK
    /// endpoints.
    pub fn read(key: &Json, credits: &Json, byok: Option<&Json>) -> (result: Result<
        AccountCheck,
        AnswerFault,
    >)
        ensures
            match result {
                Ok(account) => account_of(key@, credits@, option_view(byok)) == Ok::<
                    AccountView,
                    AnswerFaultView,
                >(account@),
                Err(fault) => account_of(key@, credits@, option_view(byok)) == Err::<
                    AccountView,
                    AnswerFaultView,
                >(fault@),
            },
    {
        let free_tier = match free_tier_in(key) {
            Some(free) => free,
            None => {
                return Err(AnswerFault::Unreadable);
            },
        };
        let (total_credits, total_usage) = match credits_in(credits) {
            Some(numbers) => numbers,
            None => {
                return Err(AnswerFault::Unreadable);
            },
        };
        let byok_endpoints = match byok {
            Some(listing) => match byok_in(listing) {
                Some(n) => Some(n),
                None => {
                    return Err(AnswerFault::Unreadable);
                },
            },
            None => None,
        };
        Ok(AccountCheck { free_tier, total_credits, total_usage, byok_endpoints })
    }
}

// ---------------------------------------------------------------------------
// The model.

/// Whether a model's measured capabilities cover a request.
pub open spec fn covers(
    model: RouteModelView,
    usage: ToolUsage,
    needs_structured_output: bool,
) -> bool {
    &&& usage.function ==> model.function_tools
    &&& usage.custom ==> model.custom_tools
    &&& usage.namespace ==> model.namespace_tools
    &&& usage.additional_tools ==> model.namespace_tools
    &&& needs_structured_output ==> model.structured_outputs
}

/// The first configured model whose measured capabilities cover this request,
/// or `None` when the route cannot serve it at all.
pub fn model_for(
    models: &[OpenRouterModel],
    usage: ToolUsage,
    needs_structured_output: bool,
) -> (found: Option<&OpenRouterModel>)
    ensures
        match found {
            Some(model) => exists|i: int|
                0 <= i < models@.len() && *model == #[trigger] models@[i] && covers(
                    models@[i]@,
                    usage,
                    needs_structured_output,
                ) && forall|k: int|
                    0 <= k < i ==> !covers(
                        (#[trigger] models@[k])@,
                        usage,
                        needs_structured_output,
                    ),
            None => forall|k: int|
                0 <= k < models@.len() ==> !covers(
                    (#[trigger] models@[k])@,
                    usage,
                    needs_structured_output,
                ),
        },
{
    let mut i: usize = 0;
    while i < models.len()
        invariant
            i <= models@.len(),
            forall|k: int|
                0 <= k < i ==> !covers((#[trigger] models@[k])@, usage, needs_structured_output),
        decreases models.len() - i,
    {
        let model = &models[i];
        if (!usage.function || model.function_tools) && (!usage.custom || model.custom_tools) && (
        !usage.namespace || model.namespace_tools) && (!usage.additional_tools
            || model.namespace_tools) && (!needs_structured_output || model.structured_outputs) {
            assert(*model == models@[i as int]);
            return Some(model);
        }
        i = i + 1;
    }
    None
}

/// Law: a request with custom tools goes nowhere unless a model was measured
/// to accept them.
pub proof fn custom_tools_need_a_model_that_takes_them(
    models: Seq<RouteModelView>,
    usage: ToolUsage,
    needs_structured_output: bool,
)
    requires
        usage.custom,
        forall|i: int| 0 <= i < models.len() ==> !(#[trigger] models[i]).custom_tools,
    ensures
        forall|i: int|
            0 <= i < models.len() ==> !covers(
                #[trigger] models[i],
                usage,
                needs_structured_output,
            ),
{
}

/// Law: the route is open only where paid usage is impossible: on the free
/// tier, with no credits, and with no BYOK endpoint that was found.
pub proof fn a_safe_account_cannot_pay(account: AccountView)
    requires
        account_is_safe(account),
    ensures
        account.free_tier,
        !above_zero(account.total_credits),
        account.byok_endpoints matches Some(n) ==> n == 0,
        unsafe_reasons(account).len() == 0,
{
}

/// Law: what cannot be confirmed keeps the route closed. An account that is
/// read as safe comes from answers that say so: that the key is on the free
/// tier, that no credits were bought, and, where they were listed, that there
/// are no BYOK endpoints.
pub proof fn only_confirmed_answers_open_the_route(
    key: JsonView,
    credits: JsonView,
    byok: Option<JsonView>,
)
    requires
        account_of(key, credits, byok) matches Ok(account) && account_is_safe(account),
        byok matches Some(listing) && byok_of(listing) matches Some(n) ==> n <= usize::MAX,
    ensures
        free_tier_of(key) == Some(true),
        json_get(credits, "data"@) matches Some(data) && (number_in(
            data,
            "total_credits"@,
        ) matches Some(bought) && !above_zero(bought)),
        byok matches Some(listing) ==> byok_of(listing) == Some(0nat),
{
}

/// Law: an account whose answers say that it cannot pay is read as safe: on the
/// free tier, with no credits bought, and with none of the operator's own
/// endpoints where they were asked for. How much was used decides nothing.
pub proof fn an_account_that_cannot_pay_is_safe(
    key: JsonView,
    credits: JsonView,
    byok: Option<JsonView>,
    bought: NumberView,
)
    requires
        json_get(key, "data"@) matches Some(data) && json_get(data, "is_free_tier"@) == Some(
            JsonView::Bool(true),
        ),
        json_get(credits, "data"@) matches Some(data) && json_get(data, "total_credits"@) == Some(
            JsonView::Number(bought),
        ),
        !above_zero(bought),
        byok matches Some(listing) ==> json_get(listing, "data"@) == Some(
            JsonView::Array(Seq::empty()),
        ),
    ensures
        account_of(key, credits, byok) matches Ok(account) && account_is_safe(account)
            && account.total_credits == bought && account.free_tier,
{
}

/// Law: an account is read from what the answers say and from nothing else, and
/// an answer that leaves open whether it could pay is no answer.
pub proof fn an_account_is_read_as_answered(
    key: JsonView,
    credits: JsonView,
    byok: Option<JsonView>,
)
    requires
        byok matches Some(listing) && json_get(listing, "data"@) matches Some(
            JsonView::Array(endpoints),
        ) ==> endpoints.len() <= usize::MAX,
    ensures
        match account_of(key, credits, byok) {
            Ok(account) => {
                &&& json_get(json_get(key, "data"@)->0, "is_free_tier"@) == Some(
                    JsonView::Bool(account.free_tier),
                )
                &&& json_get(json_get(credits, "data"@)->0, "total_credits"@) == Some(
                    JsonView::Number(account.total_credits),
                )
                &&& match byok {
                    Some(listing) => account.byok_endpoints matches Some(n) && (json_get(
                        listing,
                        "data"@,
                    ) matches Some(JsonView::Array(endpoints)) && endpoints.len() == n),
                    None => account.byok_endpoints is None,
                }
            },
            Err(fault) => fault is Unreadable,
        },
{
}

/// Law: an account that is not safe says why, and a safe one has nothing to
/// say.
pub proof fn an_unsafe_account_says_why(account: AccountView)
    ensures
        unsafe_reasons(account).len() > 0 <==> !account_is_safe(account),
        account_is_safe(account) <==> account.free_tier && !above_zero(account.total_credits) && (
        account.byok_endpoints is None || account.byok_endpoints->0 == 0),
{
    reveal_strlit("the key is no longer on the free tier");
    reveal_strlit("the account has BYOK endpoints configured");
    reveal_strlit("the account holds ");
    assert("the key is no longer on the free tier"@.len() == 37);
    assert("the account has BYOK endpoints configured"@.len() == 41);
    assert("the account holds "@.len() == 18);
}

/// Whether a digit other than zero stands at a position, before any exponent.
pub open spec fn counts_at(text: Seq<char>, i: int, from: int) -> bool {
    &&& from <= i < text.len()
    &&& '1' as u32 <= text[i] as u32 <= '9' as u32
    &&& forall|k: int| from <= k < i ==> #[trigger] text[k] != 'e' && text[k] != 'E'
}

proof fn lemma_has_value(text: Seq<char>, from: int)
    requires
        0 <= from <= text.len(),
    ensures
        has_value(text, from) <==> exists|i: int| counts_at(text, i, from),
    decreases text.len() - from,
{
    if from < text.len() {
        lemma_has_value(text, from + 1);
        if has_value(text, from) {
            if '1' as u32 <= text[from] as u32 <= '9' as u32 {
                assert(counts_at(text, from, from));
            } else {
                let next = from + 1;
                let i = choose|i: int| counts_at(text, i, next);
                assert(counts_at(text, i, from));
            }
        }
        if exists|i: int| counts_at(text, i, from) {
            let i = choose|i: int| counts_at(text, i, from);
            if i > from {
                assert(text[from] != 'e' && text[from] != 'E');
                assert(counts_at(text, i, from + 1));
            }
        }
    }
}

/// Law: a number is above zero where it is written without a minus and with a
/// digit other than zero before its exponent.
pub proof fn a_number_is_above_zero_by_its_digits(number: NumberView)
    ensures
        above_zero(number) <==> match number {
            NumberView::Unsigned(n) => n != 0,
            NumberView::Negative(_) => false,
            NumberView::Real(text) => (text.len() == 0 || text[0] != '-') && exists|i: int|
                counts_at(text, i, 0),
        },
{
    if let NumberView::Real(text) = number {
        lemma_has_value(text, 0);
    }
}

/// Law: an answer is read where its status is a success, and no other is.
pub proof fn only_a_successful_answer_is_read(status: u16, body: Seq<char>, most: nat)
    ensures
        match answer_document(status, body, most) {
            Ok(value) => 200 <= status < 300 && (json_document(encode_utf8(body)) matches Ok(
                document,
            ) && document == value),
            Err(AnswerFaultView::Status { status: given, body: shown }) => given == status && !(200
                <= status < 300) && shown.len() <= most && shown.is_prefix_of(body),
            Err(AnswerFaultView::Unreadable) => 200 <= status < 300 && json_document(
                encode_utf8(body),
            ) is Err,
        },
{
}

/// Digits alone.
pub open spec fn only_digits(s: Seq<char>) -> bool {
    forall|k: int| 0 <= k < s.len() ==> digit_value(#[trigger] s[k]) is Some
}

proof fn lemma_mantissa(whole: Seq<char>, fraction: Seq<char>, rest: Seq<char>)
    requires
        only_digits(whole),
        only_digits(fraction),
        rest.len() > 0 ==> rest[0] == 'e',
    ensures
        ({
            let s = whole + seq!['.'] + fraction + rest;
            let at = whole.len() + 1 + fraction.len();
            &&& exponent_at(s) == at
            &&& s.take(at as int) == whole + seq!['.'] + fraction
            &&& point_at(s.take(at as int)) == whole.len()
            &&& s.take(at as int).take(whole.len() as int) == whole
            &&& s.take(at as int).skip(whole.len() + 1int) == fraction
        }),
{
    let s = whole + seq!['.'] + fraction + rest;
    let w = whole.len() as int;
    let at = w + 1 + fraction.len();
    assert forall|k: int| 0 <= k < at implies (#[trigger] s[k]) != 'e' && s[k] != 'E' by {
        if k < w {
            assert(s[k] == whole[k]);
        } else if k > w {
            assert(s[k] == fraction[k - w - 1]);
        } else {
            assert(s[k] == '.');
        }
    }
    assert(rest.len() > 0 ==> s[at] == rest[0]);
    lemma_exponent_at(s, at);
    let mantissa = s.take(at);
    assert(mantissa =~= whole + seq!['.'] + fraction);
    assert forall|k: int| 0 <= k < w implies (#[trigger] mantissa[k]) != '.' by {
        assert(mantissa[k] == whole[k]);
    }
    assert(mantissa[w] == '.');
    lemma_first_point(mantissa, w);
    assert(mantissa.take(w) =~= whole);
    assert(mantissa.skip(w + 1) =~= fraction);
}

proof fn lemma_first_point(s: Seq<char>, n: int)
    requires
        0 <= n <= s.len(),
        forall|k: int| 0 <= k < n ==> (#[trigger] s[k]) != '.',
        n < s.len() ==> s[n] == '.',
    ensures
        point_at(s) == n,
    decreases n,
{
    if n > 0 {
        let rest = s.drop_first();
        assert forall|k: int| 0 <= k < n - 1 implies (#[trigger] rest[k]) != '.' by {
            assert(rest[k] == s[k + 1]);
        }
        assert(n < s.len() ==> rest[n - 1] == s[n]);
        lemma_first_point(rest, n - 1);
    }
}

proof fn lemma_zeros_dropped(s: Seq<char>)
    ensures
        without_zeros(s).is_prefix_of(s),
        forall|k: int| without_zeros(s).len() <= k < s.len() ==> (#[trigger] s[k]) == '0',
        without_zeros(s).len() > 0 ==> without_zeros(s).last() != '0',
    decreases s.len(),
{
    if s.len() > 0 && s.last() == '0' {
        lemma_zeros_dropped(s.drop_last());
        assert forall|k: int| without_zeros(s).len() <= k < s.len() implies (#[trigger] s[k])
            == '0' by {
            if k < s.len() - 1 {
                assert(s.drop_last()[k] == s[k]);
            }
        }
    }
}

/// Law: a number is shown by its digits, without the zeros at the end of its
/// fraction, and without a point where nothing is left of that.
pub proof fn a_number_is_shown_by_its_digits(whole: Seq<char>, fraction: Seq<char>)
    requires
        whole.len() > 0,
        only_digits(whole),
        only_digits(fraction),
    ensures
        ({
            let kept = without_zeros(fraction);
            &&& plain_text(whole + seq!['.'] + fraction) == if kept.len() == 0 {
                whole
            } else {
                whole + seq!['.'] + kept
            }
            &&& kept.is_prefix_of(fraction)
            &&& forall|k: int| kept.len() <= k < fraction.len() ==> (#[trigger] fraction[k]) == '0'
            &&& kept.len() > 0 ==> kept.last() != '0'
        }),
{
    reveal_strlit(".");
    assert("."@ =~= seq!['.']);
    lemma_mantissa(whole, fraction, Seq::empty());
    assert(whole + seq!['.'] + fraction + Seq::<char>::empty() =~= whole + seq!['.'] + fraction);
    lemma_zeros_dropped(fraction);
    let digits = whole + fraction;
    assert(digits.take(whole.len() as int) =~= whole);
    assert(digits.skip(whole.len() as int) =~= fraction);
    if fraction.len() == 0 {
        assert(digits =~= whole);
        assert(zeros(0) =~= Seq::empty());
        assert(whole + zeros(0) =~= whole);
        assert(without_zeros(fraction).len() == 0);
    }
}

/// Law: an exponent moves the point of a number by as many places: to the right
/// within its fraction, to the left within its whole digits.
pub proof fn an_exponent_moves_the_point(
    whole: Seq<char>,
    fraction: Seq<char>,
    exponent: Seq<char>,
    places: int,
)
    requires
        only_digits(whole),
        only_digits(fraction),
        -400 <= places <= 400,
        integer_value(exponent) == Some(places as i64),
        0 < whole.len() + places <= whole.len() + fraction.len(),
    ensures
        ({
            let digits = whole + fraction;
            let at = whole.len() + places;
            plain_text(whole + seq!['.'] + fraction + seq!['e'] + exponent) == plain_text(
                digits.take(at) + seq!['.'] + digits.skip(at),
            )
        }),
{
    let digits = whole + fraction;
    let at = whole.len() + places;
    let rest = seq!['e'] + exponent;
    let s = whole + seq!['.'] + fraction + seq!['e'] + exponent;
    assert(s =~= whole + seq!['.'] + fraction + rest);
    lemma_mantissa(whole, fraction, rest);
    assert(s.skip(exponent_at(s) + 1int) =~= exponent);
    let front = digits.take(at);
    let back = digits.skip(at);
    assert forall|k: int| 0 <= k < digits.len() implies digit_value(#[trigger] digits[k]) is Some by {
        if k < whole.len() {
            assert(digits[k] == whole[k]);
        } else {
            assert(digits[k] == fraction[k - whole.len()]);
        }
    }
    assert(only_digits(front));
    assert(only_digits(back));
    lemma_mantissa(front, back, Seq::empty());
    assert(front + seq!['.'] + back + Seq::<char>::empty() =~= front + seq!['.'] + back);
    assert(front + back =~= digits);
}

} // verus!
