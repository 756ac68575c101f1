//! The external high-water mark, written outside the ledger's rollback domain.
//!
//! Before any dispatch the new generation and cumulative liability are written
//! and synced there, and only then committed to the ledger. The external
//! record therefore never trails the ledger, and a ledger restored from an
//! older snapshot shows up as a gap at startup.
//!
//! A checksum detects a torn or corrupted record. It does not detect a
//! rollback of the record; keeping it on a separate volume from the ledger is
//! what makes the two independent.
use vstd::prelude::*;
use vstd::string::*;
use vstd::utf8::*;

use crate::error::{plain, ErrorView, LedgerError};
use crate::text::{
    begins_with, chars_of, decimal_text_reads_back, digit_value, integer_value, push_signed,
    read_integer, signed_text, signed_text_reads_back, str_view, string_of,
};

verus! {

#[derive(Debug, Clone, Copy, PartialEq, Eq, Structural)]
pub struct HighWaterMark {
    pub generation: i64,
    pub cumulative_liability: i64,
    /// The reservation whose dispatch produced this generation.
    pub last_reservation: i64,
}

/// Where the external record is kept.
#[derive(Debug)]
pub struct ExternalHwm {
    path: String,
}

impl ExternalHwm {
    pub closed spec fn location(&self) -> Seq<char> {
        self.path@
    }

    pub fn new(path: String) -> (hwm: Self)
        ensures
            hwm.location() == path@,
    {
        Self { path }
    }

    pub fn path(&self) -> (path: &str)
        ensures
            path@ == self.location(),
    {
        self.path.as_str()
    }
}

// ---------------------------------------------------------------------------
// The checksum.

/// One step of the 64-bit FNV-1a hash.
pub open spec fn fnv_step(hash: u64, byte: u8) -> u64 {
    (hash ^ (byte as u64)).wrapping_mul(0x0000_0100_0000_01b3)
}

/// The 64-bit FNV-1a hash.
pub open spec fn fnv(bytes: Seq<u8>) -> u64
    decreases bytes.len(),
{
    if bytes.len() == 0 {
        0xcbf2_9ce4_8422_2325
    } else {
        fnv_step(fnv(bytes.drop_last()), bytes.last())
    }
}

pub fn fnv1a(bytes: &[u8]) -> (hash: u64)
    ensures
        hash == fnv(bytes@),
{
    let mut hash: u64 = 0xcbf2_9ce4_8422_2325;
    let mut i: usize = 0;
    while i < bytes.len()
        invariant
            i <= bytes@.len(),
            hash == fnv(bytes@.take(i as int)),
        decreases bytes.len() - i,
    {
        assert(bytes@.take(i + 1).drop_last() =~= bytes@.take(i as int));
        hash = (hash ^ (bytes[i] as u64)).wrapping_mul(0x0000_0100_0000_01b3);
        i = i + 1;
    }
    assert(bytes@.take(i as int) =~= bytes@);
    hash
}

/// A hexadecimal digit, in lower case.
pub open spec fn hex_char(d: nat) -> char {
    if d < 10 {
        (48 + d) as char
    } else {
        (87 + d) as char
    }
}

/// The last `width` hexadecimal digits of a number.
pub open spec fn hex_digits(n: nat, width: nat) -> Seq<char>
    decreases width,
{
    if width == 0 {
        Seq::empty()
    } else {
        hex_digits(n / 16, (width - 1) as nat).push(hex_char(n % 16))
    }
}

/// A 64-bit number as sixteen hexadecimal digits.
pub open spec fn hex_text(n: u64) -> Seq<char> {
    hex_digits(n as nat, 16)
}

fn push_hex_digits(out: &mut String, n: u64, width: u8)
    ensures
        final(out)@ == old(out)@ + hex_digits(n as nat, width as nat),
    decreases width,
{
    if width == 0 {
        assert(old(out)@ + hex_digits(n as nat, 0) =~= old(out)@);
        return;
    }
    push_hex_digits(out, n / 16, width - 1);
    let d: u8 = (n % 16) as u8;
    let code: u8 = if d < 10 {
        48 + d
    } else {
        87 + d
    };
    out.push(code as char);
    assert(out@ =~= old(out)@ + hex_digits(n as nat, width as nat));
}

/// Appends a 64-bit number as sixteen hexadecimal digits.
pub fn push_hex(out: &mut String, n: u64)
    ensures
        final(out)@ == old(out)@ + hex_text(n),
{
    push_hex_digits(out, n, 16);
}

/// The value of a hexadecimal digit, in either case.
pub open spec fn hex_digit_value(c: char) -> Option<nat> {
    let code = c as u32;
    if 48 <= code <= 57 {
        Some((code - 48) as nat)
    } else if 97 <= code <= 102 {
        Some((code - 87) as nat)
    } else if 65 <= code <= 70 {
        Some((code - 55) as nat)
    } else {
        None
    }
}

/// The number that a text of hexadecimal digits writes.
pub open spec fn hex_digits_value(s: Seq<char>) -> Option<nat>
    decreases s.len(),
{
    if s.len() == 0 {
        None
    } else {
        match hex_digit_value(s.last()) {
            None => None,
            Some(d) => if s.len() == 1 {
                Some(d)
            } else {
                match hex_digits_value(s.drop_last()) {
                    None => None,
                    Some(n) => Some(n * 16 + d),
                }
            },
        }
    }
}

/// The 64-bit number that a text writes in hexadecimal, with an optional plus
/// sign.
pub open spec fn hex_value(s: Seq<char>) -> Option<u64> {
    let digits = if s.len() > 0 && s[0] == '+' {
        s.drop_first()
    } else {
        s
    };
    match hex_digits_value(digits) {
        Some(n) if n <= u64::MAX => Some(n as u64),
        _ => None,
    }
}

proof fn lemma_hex_grows(s: Seq<char>, n: int)
    requires
        0 < n <= s.len(),
        match hex_digits_value(s.take(n)) {
            Some(v) => v > u64::MAX,
            None => true,
        },
    ensures
        match hex_digits_value(s) {
            Some(v) => v > u64::MAX,
            None => true,
        },
    decreases s.len() - n,
{
    if n < s.len() {
        assert(s.take(n + 1).drop_last() =~= s.take(n));
        lemma_hex_grows(s, n + 1);
    } else {
        assert(s.take(n) =~= s);
    }
}

/// Reads `chars[from..to]` as a 64-bit number in hexadecimal.
fn read_hex(chars: &Vec<char>, from: usize, to: usize) -> (value: Option<u64>)
    requires
        from <= to <= chars@.len(),
    ensures
        value == hex_value(chars@.subrange(from as int, to as int)),
{
    let ghost whole = chars@.subrange(from as int, to as int);
    let start: usize = if from < to && chars[from] == '+' {
        from + 1
    } else {
        from
    };
    let ghost s = chars@.subrange(start as int, to as int);
    assert(start == from + 1 ==> whole.drop_first() =~= s);
    if start == to {
        return None;
    }
    let mut value: u64 = 0;
    let mut i: usize = start;
    while i < to
        invariant
            start <= i <= to <= chars@.len(),
            start < to,
            s == chars@.subrange(start as int, to as int),
            whole == chars@.subrange(from as int, to as int),
            hex_value(whole) == match hex_digits_value(s) {
                Some(n) if n <= u64::MAX => Some(n as u64),
                _ => None,
            },
            i == start ==> value == 0,
            i > start ==> hex_digits_value(s.take(i - start)) == Some(value as nat),
        decreases to - i,
    {
        let c = chars[i];
        let ghost n = i + 1 - start;
        assert(s.take(n).last() == c);
        assert(s.take(n).drop_last() =~= s.take(n - 1));
        let code: u32 = c as u32;
        let d: u32 = if 48 <= code && code <= 57 {
            code - 48
        } else if 97 <= code && code <= 102 {
            code - 87
        } else if 65 <= code && code <= 70 {
            code - 55
        } else {
            proof {
                lemma_hex_grows(s, n);
            }
            return None;
        };
        let next: u128 = value as u128 * 16 + d as u128;
        assert(hex_digits_value(s.take(n)) == Some(next as nat));
        if next > u64::MAX as u128 {
            proof {
                lemma_hex_grows(s, n);
            }
            return None;
        }
        value = next as u64;
        i = i + 1;
    }
    assert(s.take(to - start) =~= s);
    Some(value)
}

proof fn lemma_hex_digits_read_back(n: nat, width: nat)
    requires
        width > 0,
    ensures
        hex_digits(n, width).len() == width,
        hex_digits_value(hex_digits(n, width)) matches Some(v) && v == n % pow16(width),
        forall|i: int|
            0 <= i < width ==> hex_digit_value(#[trigger] hex_digits(n, width)[i]) is Some,
    decreases width,
{
    let text = hex_digits(n, width);
    let rest = hex_digits(n / 16, (width - 1) as nat);
    assert(text.drop_last() =~= rest);
    assert(hex_digit_value(hex_char(n % 16)) == Some(n % 16));
    if width == 1 {
        assert(rest.len() == 0);
        assert(pow16(1) == 16 * pow16(0));
    } else {
        lemma_hex_digits_read_back(n / 16, (width - 1) as nat);
        let m = pow16((width - 1) as nat);
        lemma_pow16_positive((width - 1) as nat);
        assert((n / 16) % m * 16 + n % 16 == n % (16 * m)) by (nonlinear_arith)
            requires
                m > 0,
        {
            let q = (n / 16) / m;
            let r = (n / 16) % m;
            assert(n / 16 == m * q + r);
            assert(n == 16 * (n / 16) + n % 16);
            assert(n == (16 * m) * q + (16 * r + n % 16));
            assert(0 <= 16 * r + n % 16 < 16 * m);
            vstd::arithmetic::div_mod::lemma_fundamental_div_mod_converse(
                n as int,
                (16 * m) as int,
                q as int,
                (16 * r + n % 16) as int,
            );
        }
        assert forall|i: int| 0 <= i < width implies hex_digit_value(#[trigger] text[i]) is Some by {
            if i < rest.len() {
                assert(hex_digit_value(rest[i]) is Some);
            }
        }
    }
}

pub open spec fn pow16(n: nat) -> nat
    decreases n,
{
    if n == 0 {
        1
    } else {
        16 * pow16((n - 1) as nat)
    }
}

proof fn lemma_pow16_positive(n: nat)
    ensures
        pow16(n) > 0,
    decreases n,
{
    if n > 0 {
        lemma_pow16_positive((n - 1) as nat);
    }
}

/// Law: a 64-bit number is read back from its hexadecimal text.
pub proof fn hex_text_reads_back(n: u64)
    ensures
        hex_text(n).len() == 16,
        hex_value(hex_text(n)) == Some(n),
        forall|i: int| 0 <= i < 16 ==> hex_digit_value(#[trigger] hex_text(n)[i]) is Some,
{
    lemma_hex_digits_read_back(n as nat, 16);
    reveal_with_fuel(pow16, 17);
    assert(pow16(16) == 0x1_0000_0000_0000_0000);
    assert(hex_digit_value(hex_text(n)[0]) is Some);
}

// ---------------------------------------------------------------------------
// The record.

pub open spec fn magic() -> Seq<char> {
    "quotamiser-hwm v1"@
}

/// What the checksum covers.
pub open spec fn mark_body(mark: HighWaterMark) -> Seq<char> {
    magic() + " "@ + signed_text(mark.generation as int) + " "@ + signed_text(
        mark.cumulative_liability as int,
    ) + " "@ + signed_text(mark.last_reservation as int)
}

/// The line the record consists of.
pub open spec fn mark_line(mark: HighWaterMark) -> Seq<char> {
    mark_body(mark) + " "@ + hex_text(fnv(encode_utf8(mark_body(mark)))) + "\n"@
}

/// The record of a mark, as it is stored.
pub fn render(mark: HighWaterMark) -> (line: String)
    ensures
        line@ == mark_line(mark),
{
    let mut line = String::from_str("quotamiser-hwm v1");
    line.push_str(" ");
    push_signed(&mut line, mark.generation);
    line.push_str(" ");
    push_signed(&mut line, mark.cumulative_liability);
    line.push_str(" ");
    push_signed(&mut line, mark.last_reservation);
    let checksum: u64 = fnv1a(line.as_str().as_bytes());
    line.push_str(" ");
    push_hex(&mut line, checksum);
    line.push_str("\n");
    line
}

/// A text without the newlines at its end.
pub open spec fn without_newlines(s: Seq<char>) -> Seq<char>
    decreases s.len(),
{
    if s.len() > 0 && s.last() == '\n' {
        without_newlines(s.drop_last())
    } else {
        s
    }
}

/// The position of the last space.
pub open spec fn last_space(s: Seq<char>) -> Option<int>
    decreases s.len(),
{
    if s.len() == 0 {
        None
    } else if s.last() == ' ' {
        Some(s.len() - 1)
    } else {
        last_space(s.drop_last())
    }
}

/// The characters that separate words.
pub open spec fn is_blank(c: char) -> bool {
    let code = c as u32;
    9 <= code <= 13 || code == 32 || code == 0x85 || code == 0xa0 || code == 0x1680 || 0x2000
        <= code <= 0x200a || code == 0x2028 || code == 0x2029 || code == 0x202f || code == 0x205f
        || code == 0x3000
}

fn blank(c: char) -> (yes: bool)
    ensures
        yes == is_blank(c),
{
    let code: u32 = c as u32;
    (9 <= code && code <= 13) || code == 32 || code == 0x85 || code == 0xa0 || code == 0x1680 || (
    0x2000 <= code && code <= 0x200a) || code == 0x2028 || code == 0x2029 || code == 0x202f || code
        == 0x205f || code == 0x3000
}

/// How many characters stand before the first blank.
pub open spec fn word_length(s: Seq<char>) -> nat
    decreases s.len(),
{
    if s.len() == 0 || is_blank(s[0]) {
        0
    } else {
        1 + word_length(s.drop_first())
    }
}

/// The integers a text holds as blank-separated words, or `None` where a word
/// is no integer.
pub open spec fn integers(s: Seq<char>) -> Option<Seq<i64>>
    decreases s.len(),
{
    if s.len() == 0 {
        Some(Seq::empty())
    } else if is_blank(s[0]) {
        integers(s.drop_first())
    } else {
        let n = word_length(s);
        if n == 0 || n > s.len() {
            None
        } else {
            match (integer_value(s.take(n as int)), integers(s.skip(n as int))) {
                (Some(value), Some(rest)) => Some(seq![value] + rest),
                _ => None,
            }
        }
    }
}

pub open spec fn corrupt(why: Seq<char>) -> ErrorView {
    ErrorView::Integrity("external high-water mark "@ + why)
}

/// What a stored record says.
pub open spec fn parsed_mark(text: Seq<char>) -> Result<HighWaterMark, ErrorView> {
    let line = without_newlines(text);
    match last_space(line) {
        None => Err(corrupt("is malformed"@)),
        Some(k) => {
            let body = line.take(k);
            match hex_value(line.skip(k + 1)) {
                None => Err(corrupt("has a bad checksum field"@)),
                Some(expected) => if fnv(encode_utf8(body)) != expected {
                    Err(corrupt("fails its checksum"@))
                } else if !magic().is_prefix_of(body) {
                    Err(corrupt("has an unknown format"@))
                } else {
                    match integers(body.skip(magic().len() as int)) {
                        None => Err(corrupt("has a non-numeric field"@)),
                        Some(fields) => if fields.len() == 3 && fields[0] >= 0 && fields[1] >= 0 {
                            Ok(
                                HighWaterMark {
                                    generation: fields[0],
                                    cumulative_liability: fields[1],
                                    last_reservation: fields[2],
                                },
                            )
                        } else {
                            Err(corrupt("has the wrong fields"@))
                        },
                    }
                },
            }
        },
    }
}

fn corrupted(why: &str) -> (error: LedgerError)
    ensures
        error@ == corrupt(why@),
{
    let mut text = String::from_str("external high-water mark ");
    text.push_str(why);
    LedgerError::Integrity(text)
}

/// Reads the integers of `chars[from..to]`.
fn read_integers(chars: &Vec<char>, from: usize, to: usize) -> (result: Option<Vec<i64>>)
    requires
        from <= to <= chars@.len(),
    ensures
        match integers(chars@.subrange(from as int, to as int)) {
            Some(values) => result matches Some(v) && v@ == values,
            None => result is None,
        },
{
    let ghost whole = chars@.subrange(from as int, to as int);
    let mut out: Vec<i64> = Vec::new();
    let mut i: usize = from;
    assert(out@ + integers(whole).unwrap_or(Seq::empty()) =~= integers(whole).unwrap_or(
        Seq::empty(),
    ));
    while i < to
        invariant
            from <= i <= to <= chars@.len(),
            whole == chars@.subrange(from as int, to as int),
            match integers(chars@.subrange(i as int, to as int)) {
                Some(rest) => integers(whole) == Some(out@ + rest),
                None => integers(whole) is None,
            },
        decreases to - i,
    {
        let ghost s = chars@.subrange(i as int, to as int);
        if blank(chars[i]) {
            assert(s.drop_first() =~= chars@.subrange(i + 1, to as int));
            i = i + 1;
        } else {
            let mut end: usize = i;
            assert(s.skip(0) =~= s);
            while end < to && !blank(chars[end])
                invariant
                    i <= end <= to <= chars@.len(),
                    s == chars@.subrange(i as int, to as int),
                    word_length(s) == (end - i) + word_length(s.skip(end - i)),
                decreases to - end,
            {
                assert(s.skip(end - i).drop_first() =~= s.skip(end + 1 - i));
                end = end + 1;
            }
            assert(word_length(s) == end - i);
            assert(s.take(end - i) =~= chars@.subrange(i as int, end as int));
            assert(s.skip(end - i) =~= chars@.subrange(end as int, to as int));
            match read_integer(chars, i, end) {
                None => return None,
                Some(value) => {
                    let ghost before = out@;
                    out.push(value);
                    proof {
                        if let Some(rest) = integers(s.skip(end - i)) {
                            assert(before + (seq![value] + rest) =~= before.push(value) + rest);
                        }
                    }
                },
            }
            i = end;
        }
    }
    assert(chars@.subrange(to as int, to as int) =~= Seq::<char>::empty());
    assert(out@ + Seq::<i64>::empty() =~= out@);
    Some(out)
}

/// Reads a stored record. A record that cannot be parsed is an integrity
/// error, never an absent one.
pub fn parse(text: &str) -> (result: Result<HighWaterMark, LedgerError>)
    ensures
        plain(result) == parsed_mark(text@),
{
    let chars = chars_of(text);
    let mut end: usize = chars.len();
    assert(text@.take(end as int) =~= text@);
    while end > 0 && chars[end - 1] == '\n'
        invariant
            end <= chars@.len(),
            chars@ == text@,
            without_newlines(text@.take(end as int)) == without_newlines(text@),
        decreases end,
    {
        assert(text@.take(end as int).drop_last() =~= text@.take(end - 1));
        end = end - 1;
    }
    let ghost line = text@.take(end as int);
    assert(line == without_newlines(text@));
    let mut k: usize = end;
    assert(line.take(end as int) =~= line);
    while k > 0 && chars[k - 1] != ' '
        invariant
            k <= end <= chars@.len(),
            chars@ == text@,
            line == text@.take(end as int),
            last_space(line.take(k as int)) == last_space(line),
        decreases k,
    {
        assert(line.take(k as int).drop_last() =~= line.take(k - 1));
        k = k - 1;
    }
    if k == 0 {
        return Err(corrupted("is malformed"));
    }
    let space: usize = k - 1;
    assert(last_space(line) == Some(space as int));
    assert(line.skip(space + 1) =~= chars@.subrange(k as int, end as int));
    assert(line.take(space as int) =~= chars@.subrange(0, space as int));
    let expected: u64 = match read_hex(&chars, k, end) {
        None => return Err(corrupted("has a bad checksum field")),
        Some(expected) => expected,
    };
    let body = string_of(&chars, 0, space);
    if fnv1a(body.as_str().as_bytes()) != expected {
        return Err(corrupted("fails its checksum"));
    }
    if !begins_with(body.as_str(), "quotamiser-hwm v1") {
        return Err(corrupted("has an unknown format"));
    }
    assert(body@.skip(magic().len() as int) =~= chars@.subrange(
        magic().len() as int,
        space as int,
    ));
    let start: usize = chars_of("quotamiser-hwm v1").len();
    let fields = match read_integers(&chars, start, space) {
        None => return Err(corrupted("has a non-numeric field")),
        Some(fields) => fields,
    };
    if fields.len() == 3 && fields[0] >= 0 && fields[1] >= 0 {
        Ok(
            HighWaterMark {
                generation: fields[0],
                cumulative_liability: fields[1],
                last_reservation: fields[2],
            },
        )
    } else {
        Err(corrupted("has the wrong fields"))
    }
}

/// What the place of the record says, given the text that is stored there, if
/// any: no mark only where no record was ever written.
pub open spec fn stored_mark(stored: Option<Seq<char>>) -> Result<
    Option<HighWaterMark>,
    ErrorView,
> {
    match stored {
        None => Ok(None),
        Some(text) => match parsed_mark(text) {
            Ok(mark) => Ok(Some(mark)),
            Err(error) => Err(error),
        },
    }
}

impl ExternalHwm {
    /// Reads the record from the text that is stored, if any. `Ok(None)` when
    /// the record has never been written. A record that exists but cannot be
    /// parsed is an integrity error, never `None`.
    pub fn read(stored: Option<&str>) -> (result: Result<Option<HighWaterMark>, LedgerError>)
        ensures
            plain(result) == stored_mark(str_view(stored)),
    {
        match stored {
            None => Ok(None),
            Some(text) => match parse(text) {
                Ok(mark) => Ok(Some(mark)),
                Err(error) => Err(error),
            },
        }
    }
}

// ---------------------------------------------------------------------------
// What is written is read back.

/// A text without blanks, such as a number's.
pub open spec fn is_word(s: Seq<char>) -> bool {
    s.len() > 0 && forall|i: int| 0 <= i < s.len() ==> !is_blank(#[trigger] s[i])
}

proof fn lemma_signed_text_is_word(n: i64)
    ensures
        is_word(signed_text(n as int)),
{
    let magnitude: nat = if n < 0 {
        (-n) as nat
    } else {
        n as nat
    };
    decimal_text_reads_back(magnitude);
    let digits = crate::text::decimal_text(magnitude);
    let text = signed_text(n as int);
    assert forall|i: int| 0 <= i < text.len() implies !is_blank(#[trigger] text[i]) by {
        if n < 0 {
            if i > 0 {
                assert(text[i] == digits[i - 1]);
                assert(digit_value(digits[i - 1]) is Some);
            }
        } else {
            assert(digit_value(digits[i]) is Some);
        }
    }
}

proof fn lemma_word_length_of_word(word: Seq<char>, rest: Seq<char>)
    requires
        forall|i: int| 0 <= i < word.len() ==> !is_blank(#[trigger] word[i]),
        rest.len() == 0 || is_blank(rest[0]),
    ensures
        word_length(word + rest) == word.len(),
    decreases word.len(),
{
    if word.len() > 0 {
        assert(!is_blank(word[0]));
        assert((word + rest).drop_first() =~= word.drop_first() + rest);
        assert forall|i: int| 0 <= i < word.drop_first().len() implies !is_blank(
            #[trigger] word.drop_first()[i],
        ) by {
            assert(!is_blank(word[i + 1]));
        }
        lemma_word_length_of_word(word.drop_first(), rest);
    } else {
        assert(word + rest =~= rest);
    }
}

/// A leading number is read, and the rest after it.
proof fn lemma_integers_of_number(n: i64, rest: Seq<char>)
    requires
        rest.len() == 0 || is_blank(rest[0]),
    ensures
        integers(" "@ + signed_text(n as int) + rest) == match integers(rest) {
            Some(values) => Some(seq![n] + values),
            None => None,
        },
{
    reveal_strlit(" ");
    let word = signed_text(n as int);
    lemma_signed_text_is_word(n);
    lemma_word_length_of_word(word, rest);
    signed_text_reads_back(n);
    let s = word + rest;
    let whole = " "@ + word + rest;
    assert(whole.drop_first() =~= s);
    assert(whole[0] == ' ' && is_blank(' '));
    assert(integers(whole) == integers(s));
    assert(s.len() > 0 && s[0] == word[0] && !is_blank(word[0]));
    let n_word = word_length(s);
    assert(n_word == word.len());
    assert(s.take(n_word as int) =~= word);
    assert(s.skip(n_word as int) =~= rest);
    assert(integers(s) == match (integer_value(word), integers(rest)) {
        (Some(value), Some(values)) => Some(seq![value] + values),
        _ => None,
    });
}

/// Law: a mark that the ledger can hold is read back from its record.
pub proof fn a_record_reads_back(mark: HighWaterMark)
    requires
        mark.generation >= 0,
        mark.cumulative_liability >= 0,
    ensures
        parsed_mark(mark_line(mark)) == Ok::<HighWaterMark, ErrorView>(mark),
{
    reveal_strlit(" ");
    reveal_strlit("\n");
    let body = mark_body(mark);
    let checksum = fnv(encode_utf8(body));
    let hex = hex_text(checksum);
    hex_text_reads_back(checksum);
    let line = body + " "@ + hex;
    assert(mark_line(mark).drop_last() =~= line);
    assert(mark_line(mark).last() == '\n');
    assert(line.last() == hex[15]);
    assert(hex_digit_value(hex[15]) is Some);
    assert(without_newlines(mark_line(mark)) == line) by {
        assert(without_newlines(line) == line);
    }
    lemma_last_space(body + " "@, hex);
    let k = body.len() as int;
    assert((body + " "@).drop_last() =~= body);
    assert((body + " "@).last() == ' ');
    assert(last_space(line) == Some(k));
    assert(line.take(k) =~= body);
    assert(line.skip(k + 1) =~= hex);
    assert(magic().is_prefix_of(body)) by {
        assert(magic() =~= body.subrange(0, magic().len() as int));
    }
    let third = " "@ + signed_text(mark.last_reservation as int);
    let second = " "@ + signed_text(mark.cumulative_liability as int) + third;
    let first = " "@ + signed_text(mark.generation as int) + second;
    assert(body.skip(magic().len() as int) =~= first);
    assert(third =~= " "@ + signed_text(mark.last_reservation as int) + Seq::<char>::empty());
    lemma_integers_of_number(mark.last_reservation, Seq::<char>::empty());
    assert(third[0] == ' ' && is_blank(third[0]));
    lemma_integers_of_number(mark.cumulative_liability, third);
    assert(second[0] == ' ' && is_blank(second[0]));
    lemma_integers_of_number(mark.generation, second);
    let values = integers(first)->0;
    assert(values.len() == 3 && values[0] == mark.generation && values[1]
        == mark.cumulative_liability && values[2] == mark.last_reservation);
}

/// Whether a stored text ends in the checksum of what stands before it.
pub open spec fn checksum_matches(text: Seq<char>) -> bool {
    let line = without_newlines(text);
    last_space(line) matches Some(k) && hex_value(line.skip(k + 1)) == Some(
        fnv(encode_utf8(line.take(k))),
    )
}

/// Law: what was written is read back as long as it is not changed. Where it
/// was changed to a text whose checksum does not match, reading it is an
/// integrity error. No mark is read only where there is no record.
pub proof fn a_stored_record_is_read_back_or_refused(mark: HighWaterMark, stored: Seq<char>)
    requires
        mark.generation >= 0,
        mark.cumulative_liability >= 0,
    ensures
        stored == mark_line(mark) ==> stored_mark(Some(stored)) == Ok::<
            Option<HighWaterMark>,
            ErrorView,
        >(Some(mark)),
        !checksum_matches(stored) ==> (stored_mark(Some(stored)) matches Err(
            ErrorView::Integrity(_),
        )),
        stored_mark(Some(stored)) matches Err(error) ==> error is Integrity,
        !(stored_mark(Some(stored)) matches Ok(None)),
        stored_mark(None) == Ok::<Option<HighWaterMark>, ErrorView>(None),
{
    a_record_reads_back(mark);
}

proof fn lemma_last_space(front: Seq<char>, digits: Seq<char>)
    requires
        forall|i: int| 0 <= i < digits.len() ==> hex_digit_value(#[trigger] digits[i]) is Some,
    ensures
        last_space(front + digits) == last_space(front),
    decreases digits.len(),
{
    if digits.len() > 0 {
        assert((front + digits).drop_last() =~= front + digits.drop_last());
        assert(hex_digit_value(digits[digits.len() - 1]) is Some);
        assert forall|i: int| 0 <= i < digits.drop_last().len() implies hex_digit_value(
            #[trigger] digits.drop_last()[i],
        ) is Some by {
            assert(hex_digit_value(digits[i]) is Some);
        }
        lemma_last_space(front, digits.drop_last());
    } else {
        assert(front + digits =~= front);
    }
}

/// Law: the checksum takes each byte in turn: it starts at the FNV-1a offset,
/// and a further byte is combined into it and multiplied by the FNV prime, as
/// far as 64 bits go.
pub proof fn the_checksum_is_fnv(bytes: Seq<u8>, byte: u8)
    ensures
        fnv(Seq::empty()) == 0xcbf2_9ce4_8422_2325u64,
        fnv(bytes.push(byte)) == ((fnv(bytes) ^ (byte as u64)) as nat * 0x100_0000_01b3nat)
            % 0x1_0000_0000_0000_0000nat,
{
    assert(bytes.push(byte).drop_last() =~= bytes);
}

/// Law: a mark is read only from a record whose checksum is that of what stands
/// before it, which begins with the format's name and holds three integers, the
/// first two not negative.
pub proof fn a_mark_is_read_from_a_whole_record(text: Seq<char>)
    ensures
        parsed_mark(text) matches Ok(mark) ==> {
            let line = without_newlines(text);
            &&& last_space(line) matches Some(k)
            &&& hex_value(line.skip(k + 1)) == Some(fnv(encode_utf8(line.take(k))))
            &&& "quotamiser-hwm v1"@.is_prefix_of(line.take(k))
            &&& integers(line.take(k).skip("quotamiser-hwm v1"@.len() as int)) == Some(
                seq![mark.generation, mark.cumulative_liability, mark.last_reservation],
            )
            &&& mark.generation >= 0
            &&& mark.cumulative_liability >= 0
        },
{
    if let Ok(mark) = parsed_mark(text) {
        let line = without_newlines(text);
        let k = last_space(line)->0;
        let fields = integers(line.take(k).skip(magic().len() as int))->0;
        assert(fields =~= seq![
            mark.generation,
            mark.cumulative_liability,
            mark.last_reservation,
        ]);
    }
}

} // verus!
