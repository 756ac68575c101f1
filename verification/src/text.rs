//! Text helpers: comparing, building and reading strings, each against a
//! statement over the characters.
use vstd::prelude::*;
use vstd::string::*;
use vstd::utf8::*;

verus! {

/// Trusted: `String::push` appends one character.
pub assume_specification[ String::push ](s: &mut String, c: char)
    ensures
        final(s)@ == old(s)@.push(c),
;

/// Trusted: `String::push_str` appends a string slice.
pub assume_specification[ String::push_str ](s: &mut String, text: &str)
    ensures
        final(s)@ == old(s)@ + text@,
;

/// The view of an optional string slice.
pub open spec fn str_view(text: Option<&str>) -> Option<Seq<char>> {
    match text {
        Some(s) => Some(s@),
        None => None,
    }
}

/// Whether two byte slices hold the same bytes.
pub fn bytes_eq(a: &[u8], b: &[u8]) -> (same: bool)
    ensures
        same == (a@ == b@),
{
    if a.len() != b.len() {
        return false;
    }
    let mut i: usize = 0;
    while i < a.len()
        invariant
            i <= a.len(),
            a.len() == b.len(),
            a@.len() == b@.len(),
            forall|j: int| 0 <= j < i ==> a@[j] == b@[j],
        decreases a.len() - i,
    {
        if a[i] != b[i] {
            return false;
        }
        i = i + 1;
    }
    assert(a@ =~= b@);
    true
}

/// Whether two strings hold the same characters.
pub fn str_eq(a: &str, b: &str) -> (same: bool)
    ensures
        same == (a@ == b@),
{
    let same = bytes_eq(a.as_bytes(), b.as_bytes());
    proof {
        encode_utf8_decode_utf8(a@);
        encode_utf8_decode_utf8(b@);
    }
    same
}

/// The characters of a string.
pub fn chars_of(s: &str) -> (out: Vec<char>)
    ensures
        out@ == s@,
{
    let mut out: Vec<char> = Vec::new();
    for c in it: s.chars()
        invariant
            out@ == it.seq().take(it.index() as int),
            it.seq() == s@,
    {
        proof {
            assert(it.seq().take(it.index() as int).push(c) =~= it.seq().take(it.index() + 1));
        }
        out.push(c);
    }
    assert(s@.take(s@.len() as int) =~= s@);
    out
}

/// The string made of `chars[from..to]`.
pub fn string_of(chars: &Vec<char>, from: usize, to: usize) -> (out: String)
    requires
        from <= to <= chars@.len(),
    ensures
        out@ == chars@.subrange(from as int, to as int),
{
    let mut out = String::new();
    let mut i: usize = from;
    while i < to
        invariant
            from <= i <= to <= chars@.len(),
            out@ == chars@.subrange(from as int, i as int),
        decreases to - i,
    {
        proof {
            assert(chars@.subrange(from as int, i as int).push(chars@[i as int])
                =~= chars@.subrange(from as int, i + 1));
        }
        out.push(chars[i]);
        i = i + 1;
    }
    out
}

/// A digit below ten as its character.
pub open spec fn digit_char(d: nat) -> char {
    (('0' as u32) + d) as char
}

/// A natural number in decimal, without leading zeros.
pub open spec fn decimal_text(n: nat) -> Seq<char>
    decreases n,
{
    if n < 10 {
        seq![digit_char(n)]
    } else {
        decimal_text(n / 10).push(digit_char(n % 10))
    }
}

/// An integer in decimal, with a leading minus sign when negative.
pub open spec fn signed_text(n: int) -> Seq<char> {
    if n < 0 {
        seq!['-'] + decimal_text((-n) as nat)
    } else {
        decimal_text(n as nat)
    }
}

fn digit_of(d: u128) -> (c: char)
    requires
        d < 10,
    ensures
        c == digit_char(d as nat),
{
    let code: u8 = 48u8 + (d as u8);
    code as char
}

/// Appends a number in decimal.
pub fn push_decimal(out: &mut String, n: u128)
    ensures
        final(out)@ == old(out)@ + decimal_text(n as nat),
    decreases n,
{
    if n >= 10 {
        push_decimal(out, n / 10);
    }
    let digit = digit_of(n % 10);
    out.push(digit);
    proof {
        if n >= 10 {
            assert((old(out)@ + decimal_text((n / 10) as nat)).push(digit)
                =~= old(out)@ + decimal_text(n as nat));
        } else {
            assert(old(out)@.push(digit) =~= old(out)@ + decimal_text(n as nat));
        }
    }
}

/// Appends an integer in decimal.
pub fn push_signed(out: &mut String, n: i64)
    ensures
        final(out)@ == old(out)@ + signed_text(n as int),
{
    if n < 0 {
        out.push('-');
        let magnitude: u128 = (-(n as i128)) as u128;
        push_decimal(out, magnitude);
        proof {
            assert((old(out)@.push('-')) + decimal_text((-n) as nat)
                =~= old(out)@ + signed_text(n as int));
        }
    } else {
        push_decimal(out, n as u128);
    }
}

/// The order of strings: by their first differing character, a prefix before
/// what it begins.
pub open spec fn text_lt(a: Seq<char>, b: Seq<char>) -> bool
    decreases a.len(),
{
    if b.len() == 0 {
        false
    } else if a.len() == 0 {
        true
    } else if a[0] == b[0] {
        text_lt(a.drop_first(), b.drop_first())
    } else {
        (a[0] as u32) < (b[0] as u32)
    }
}

/// Whether one string comes before another.
pub fn text_before(a: &str, b: &str) -> (before: bool)
    ensures
        before == text_lt(a@, b@),
{
    let left = chars_of(a);
    let right = chars_of(b);
    let mut i: usize = 0;
    assert(a@.skip(0) =~= a@);
    assert(b@.skip(0) =~= b@);
    while i < left.len() && i < right.len()
        invariant
            i <= left@.len(),
            i <= right@.len(),
            left@ == a@,
            right@ == b@,
            text_lt(a@, b@) == text_lt(a@.skip(i as int), b@.skip(i as int)),
        decreases left.len() - i,
    {
        if left[i] != right[i] {
            return (left[i] as u32) < (right[i] as u32);
        }
        assert(a@.skip(i as int).drop_first() =~= a@.skip(i + 1));
        assert(b@.skip(i as int).drop_first() =~= b@.skip(i + 1));
        i = i + 1;
    }
    i < right.len()
}

/// The value of a decimal digit.
pub open spec fn digit_value(c: char) -> Option<nat> {
    if '0' as u32 <= c as u32 <= '9' as u32 {
        Some((c as u32 - '0' as u32) as nat)
    } else {
        None
    }
}

/// The number that a text of decimal digits writes.
pub open spec fn digits_value(s: Seq<char>) -> Option<nat>
    decreases s.len(),
{
    if s.len() == 0 {
        None
    } else {
        match digit_value(s.last()) {
            None => None,
            Some(d) => if s.len() == 1 {
                Some(d)
            } else {
                match digits_value(s.drop_last()) {
                    None => None,
                    Some(n) => Some(n * 10 + d),
                }
            },
        }
    }
}

/// The integer that a text writes in decimal, with an optional sign.
pub open spec fn integer_value(s: Seq<char>) -> Option<i64> {
    if s.len() == 0 {
        None
    } else if s[0] == '-' {
        match digits_value(s.drop_first()) {
            Some(n) if n <= 0x8000_0000_0000_0000 => Some((-(n as int)) as i64),
            _ => None,
        }
    } else {
        let digits = if s[0] == '+' {
            s.drop_first()
        } else {
            s
        };
        match digits_value(digits) {
            Some(n) if n <= i64::MAX => Some(n as i64),
            _ => None,
        }
    }
}

/// Longer numbers are larger: once the beginning of a text is above a bound,
/// the text is too, or it is no number.
proof fn lemma_digits_grow(s: Seq<char>, n: int, bound: nat)
    requires
        0 < n <= s.len(),
        digits_value(s.take(n)) matches Some(v) && v > bound,
    ensures
        digits_value(s) matches Some(v) ==> v > bound,
    decreases s.len() - n,
{
    if n < s.len() {
        assert(s.take(n + 1).drop_last() =~= s.take(n));
        if digits_value(s.take(n + 1)) is Some {
            lemma_digits_grow(s, n + 1, bound);
        } else {
            lemma_digits_stay_bad(s, n + 1);
        }
    } else {
        assert(s.take(n) =~= s);
    }
}

proof fn lemma_digits_stay_bad(s: Seq<char>, n: int)
    requires
        0 < n <= s.len(),
        digits_value(s.take(n)) is None,
    ensures
        digits_value(s) is None,
    decreases s.len() - n,
{
    if n < s.len() {
        assert(s.take(n + 1).drop_last() =~= s.take(n));
        lemma_digits_stay_bad(s, n + 1);
    } else {
        assert(s.take(n) =~= s);
    }
}

/// Reads `chars[from..to]` as decimal digits of a number up to `bound`.
pub fn read_digits(chars: &Vec<char>, from: usize, to: usize, bound: u64) -> (value: Option<u64>)
    requires
        from <= to <= chars@.len(),
    ensures
        value == match digits_value(chars@.subrange(from as int, to as int)) {
            Some(n) if n <= bound => Some(n as u64),
            _ => None,
        },
{
    let ghost s = chars@.subrange(from as int, to as int);
    if from == to {
        return None;
    }
    let mut value: u64 = 0;
    let mut i: usize = from;
    while i < to
        invariant
            from <= i <= to <= chars@.len(),
            from < to,
            s == chars@.subrange(from as int, to as int),
            value <= bound,
            i == from ==> value == 0,
            i > from ==> digits_value(s.take(i - from)) == Some(value as nat),
        decreases to - i,
    {
        let c = chars[i];
        let ghost n = i + 1 - from;
        assert(s.take(n).last() == c);
        assert(s.take(n).drop_last() =~= s.take(n - 1));
        let code: u32 = c as u32;
        if code < 48 || code > 57 {
            proof {
                lemma_digits_stay_bad(s, n);
            }
            return None;
        }
        let next: u128 = value as u128 * 10 + (code - 48) as u128;
        assert(digits_value(s.take(n)) == Some(next as nat));
        if next > bound as u128 {
            proof {
                lemma_digits_grow(s, n, bound as nat);
            }
            return None;
        }
        value = next as u64;
        i = i + 1;
    }
    assert(s.take(to - from) =~= s);
    Some(value)
}

/// Reads `chars[from..to]` as an integer in decimal, with an optional sign.
pub fn read_integer(chars: &Vec<char>, from: usize, to: usize) -> (value: Option<i64>)
    requires
        from <= to <= chars@.len(),
    ensures
        value == integer_value(chars@.subrange(from as int, to as int)),
{
    let ghost s = chars@.subrange(from as int, to as int);
    if from == to {
        return None;
    }
    assert(s.drop_first() =~= chars@.subrange(from + 1, to as int));
    let first = chars[from];
    if first == '-' {
        match read_digits(chars, from + 1, to, 0x8000_0000_0000_0000) {
            None => None,
            Some(n) => Some((-(n as i128)) as i64),
        }
    } else {
        let start: usize = if first == '+' {
            from + 1
        } else {
            from
        };
        match read_digits(chars, start, to, i64::MAX as u64) {
            None => None,
            Some(n) => Some(n as i64),
        }
    }
}

/// Law: a number is read back from its decimal text.
pub proof fn decimal_text_reads_back(n: nat)
    ensures
        digits_value(decimal_text(n)) == Some(n),
        decimal_text(n).len() > 0,
        forall|i: int|
            0 <= i < decimal_text(n).len() ==> digit_value(#[trigger] decimal_text(n)[i]) is Some,
    decreases n,
{
    if n >= 10 {
        decimal_text_reads_back(n / 10);
        let rest = decimal_text(n / 10);
        assert(decimal_text(n).drop_last() =~= rest);
        assert(digit_value(digit_char(n % 10)) == Some(n % 10));
        assert forall|i: int| 0 <= i < decimal_text(n).len() implies digit_value(
            #[trigger] decimal_text(n)[i],
        ) is Some by {
            if i < rest.len() {
                assert(digit_value(rest[i]) is Some);
            }
        }
    } else {
        assert(digit_value(digit_char(n)) == Some(n));
    }
}

/// Law: an integer is read back from its decimal text.
pub proof fn signed_text_reads_back(n: i64)
    ensures
        integer_value(signed_text(n as int)) == Some(n),
{
    if n < 0 {
        decimal_text_reads_back((-n) as nat);
        assert(signed_text(n as int).drop_first() =~= decimal_text((-n) as nat));
    } else {
        decimal_text_reads_back(n as nat);
        assert(digit_value(decimal_text(n as nat)[0]) is Some);
    }
}

/// Whether `chars` begins with a prefix.
pub fn begins(chars: &Vec<char>, prefix: &str) -> (yes: bool)
    ensures
        yes == prefix@.is_prefix_of(chars@),
{
    let start = chars_of(prefix);
    if start.len() > chars.len() {
        return false;
    }
    let mut i: usize = 0;
    while i < start.len()
        invariant
            i <= start@.len() <= chars@.len(),
            start@ == prefix@,
            forall|j: int| 0 <= j < i ==> start@[j] == chars@[j],
        decreases start.len() - i,
    {
        if start[i] != chars[i] {
            return false;
        }
        i = i + 1;
    }
    assert(prefix@ =~= chars@.subrange(0, prefix@.len() as int));
    true
}

/// Whether a string begins with a prefix.
pub fn begins_with(text: &str, prefix: &str) -> (yes: bool)
    ensures
        yes == prefix@.is_prefix_of(text@),
{
    begins(&chars_of(text), prefix)
}

/// An ASCII letter in upper case; any other character as it is.
pub open spec fn ascii_upper(c: char) -> char {
    if 97 <= c as u32 <= 122 {
        (c as u32 - 32) as char
    } else {
        c
    }
}

pub fn to_upper(c: char) -> (upper: char)
    ensures
        upper == ascii_upper(c),
{
    let code: u32 = c as u32;
    if 97 <= code && code <= 122 {
        ((code - 32) as u8) as char
    } else {
        c
    }
}

/// Whether two characters are the same but for the case of ASCII letters.
pub open spec fn same_letters(a: Seq<char>, b: Seq<char>) -> bool {
    a.len() == b.len() && forall|i: int|
        0 <= i < a.len() ==> ascii_upper(#[trigger] a[i]) == ascii_upper(b[i])
}

/// Whether two strings are the same but for the case of ASCII letters.
pub fn eq_ignoring_case(a: &str, b: &str) -> (same: bool)
    ensures
        same == same_letters(a@, b@),
{
    let left = chars_of(a);
    let right = chars_of(b);
    if left.len() != right.len() {
        return false;
    }
    let mut i: usize = 0;
    while i < left.len()
        invariant
            i <= left@.len(),
            left@.len() == right@.len(),
            left@ == a@,
            right@ == b@,
            forall|j: int| 0 <= j < i ==> ascii_upper(#[trigger] a@[j]) == ascii_upper(b@[j]),
        decreases left.len() - i,
    {
        if to_upper(left[i]) != to_upper(right[i]) {
            return false;
        }
        i = i + 1;
    }
    true
}

/// Whether a character is white space, as Unicode's `White_Space` property
/// has it.
pub open spec fn is_blank(c: char) -> bool {
    let n = c as u32;
    9 <= n <= 13 || n == 32 || n == 0x85 || n == 0xa0 || n == 0x1680 || 0x2000 <= n <= 0x200a || n
        == 0x2028 || n == 0x2029 || n == 0x202f || n == 0x205f || n == 0x3000
}

fn blank(c: char) -> (yes: bool)
    ensures
        yes == is_blank(c),
{
    let n: u32 = c as u32;
    (9 <= n && n <= 13) || n == 32 || n == 0x85 || n == 0xa0 || n == 0x1680 || (0x2000 <= n && n
        <= 0x200a) || n == 0x2028 || n == 0x2029 || n == 0x202f || n == 0x205f || n == 0x3000
}

/// A text without white space at its start.
pub open spec fn trimmed_start(s: Seq<char>) -> Seq<char>
    decreases s.len(),
{
    if s.len() > 0 && is_blank(s[0]) {
        trimmed_start(s.drop_first())
    } else {
        s
    }
}

/// A text without white space at its end.
pub open spec fn trimmed_end(s: Seq<char>) -> Seq<char>
    decreases s.len(),
{
    if s.len() > 0 && is_blank(s.last()) {
        trimmed_end(s.drop_last())
    } else {
        s
    }
}

/// A text without white space at its ends.
pub open spec fn trimmed(s: Seq<char>) -> Seq<char> {
    trimmed_end(trimmed_start(s))
}

/// Where a text begins and ends without the white space at its ends.
pub fn trim(chars: &Vec<char>) -> (bounds: (usize, usize))
    ensures
        bounds.0 <= bounds.1 <= chars@.len(),
        chars@.subrange(bounds.0 as int, bounds.1 as int) == trimmed(chars@),
{
    let ghost s = chars@;
    let mut from: usize = 0;
    assert(s.skip(0) =~= s);
    while from < chars.len() && blank(chars[from])
        invariant
            from <= chars@.len(),
            s == chars@,
            trimmed_start(s.skip(from as int)) == trimmed_start(s),
        decreases chars.len() - from,
    {
        assert(s.skip(from as int).drop_first() =~= s.skip(from + 1));
        from = from + 1;
    }
    let mut to: usize = chars.len();
    assert(s.subrange(from as int, to as int) =~= s.skip(from as int));
    while from < to && blank(chars[to - 1])
        invariant
            from <= to <= chars@.len(),
            s == chars@,
            trimmed_end(s.subrange(from as int, to as int)) == trimmed(s),
        decreases to - from,
    {
        assert(s.subrange(from as int, to as int).drop_last() =~= s.subrange(
            from as int,
            to - 1,
        ));
        to = to - 1;
    }
    (from, to)
}

/// The unsigned number that a text writes in decimal, with an optional plus
/// sign.
pub open spec fn unsigned_value(s: Seq<char>) -> Option<u64> {
    let digits = if s.len() > 0 && s[0] == '+' {
        s.drop_first()
    } else {
        s
    };
    match digits_value(digits) {
        Some(n) if n <= u64::MAX => Some(n as u64),
        _ => None,
    }
}

/// Reads `chars[from..to]` as an unsigned number.
pub fn read_unsigned(chars: &Vec<char>, from: usize, to: usize) -> (value: Option<u64>)
    requires
        from <= to <= chars@.len(),
    ensures
        value == unsigned_value(chars@.subrange(from as int, to as int)),
{
    let ghost s = chars@.subrange(from as int, to as int);
    if from < to && chars[from] == '+' {
        assert(s.drop_first() =~= chars@.subrange(from + 1, to as int));
        return read_digits(chars, from + 1, to, u64::MAX);
    }
    read_digits(chars, from, to, u64::MAX)
}

/// Reads `chars[from..to]` as decimal digits of a number up to a large bound.
pub fn read_long_digits(chars: &Vec<char>, from: usize, to: usize, bound: u128) -> (value: Option<
    u128,
>)
    requires
        from <= to <= chars@.len(),
        bound <= 0x100_0000_0000_0000_0000_0000_0000_0000,
    ensures
        value == match digits_value(chars@.subrange(from as int, to as int)) {
            Some(n) if n <= bound => Some(n as u128),
            _ => None,
        },
{
    let ghost s = chars@.subrange(from as int, to as int);
    if from == to {
        return None;
    }
    let mut value: u128 = 0;
    let mut i: usize = from;
    while i < to
        invariant
            from <= i <= to <= chars@.len(),
            from < to,
            s == chars@.subrange(from as int, to as int),
            value <= bound,
            bound <= 0x100_0000_0000_0000_0000_0000_0000_0000,
            i == from ==> value == 0,
            i > from ==> digits_value(s.take(i - from)) == Some(value as nat),
        decreases to - i,
    {
        let c = chars[i];
        let ghost n = i + 1 - from;
        assert(s.take(n).last() == c);
        assert(s.take(n).drop_last() =~= s.take(n - 1));
        let code: u32 = c as u32;
        if code < 48 || code > 57 {
            proof {
                lemma_digits_stay_bad(s, n);
            }
            return None;
        }
        let next: u128 = value * 10 + (code - 48) as u128;
        assert(digits_value(s.take(n)) == Some(next as nat));
        if next > bound {
            proof {
                lemma_digits_grow(s, n, bound as nat);
            }
            return None;
        }
        value = next;
        i = i + 1;
    }
    assert(s.take(to - from) =~= s);
    Some(value)
}

/// A hexadecimal digit, in lower case.
pub open spec fn small_hex_char(d: nat) -> char {
    if d < 10 {
        ('0' as u32 + d) as char
    } else {
        ('a' as u32 + (d - 10)) as char
    }
}

/// How a character stands in a quoted text.
pub open spec fn quoted_char(c: char) -> Seq<char> {
    let n = c as u32;
    if c == '"' {
        seq!['\\', '"']
    } else if c == '\\' {
        seq!['\\', '\\']
    } else if c == '\n' {
        seq!['\\', 'n']
    } else if c == '\r' {
        seq!['\\', 'r']
    } else if c == '\t' {
        seq!['\\', 't']
    } else if n == 0 {
        seq!['\\', '0']
    } else if n < 16 {
        seq!['\\', 'u', '{', small_hex_char(n as nat), '}']
    } else if n < 32 || n == 127 {
        seq!['\\', 'u', '{', small_hex_char((n / 16) as nat), small_hex_char((n % 16) as nat), '}']
    } else {
        seq![c]
    }
}

/// The characters of a text as they stand in a quoted text.
pub open spec fn quoted_chars(s: Seq<char>) -> Seq<char>
    decreases s.len(),
{
    if s.len() == 0 {
        Seq::empty()
    } else {
        quoted_chars(s.drop_last()) + quoted_char(s.last())
    }
}

/// A text in quotes, with quotes, backslashes and control characters escaped.
pub open spec fn quoted_text(s: Seq<char>) -> Seq<char> {
    seq!['"'] + quoted_chars(s) + seq!['"']
}

fn small_hex(d: u32) -> (c: char)
    requires
        d < 16,
    ensures
        c == small_hex_char(d as nat),
{
    match d {
        0 => '0',
        1 => '1',
        2 => '2',
        3 => '3',
        4 => '4',
        5 => '5',
        6 => '6',
        7 => '7',
        8 => '8',
        9 => '9',
        10 => 'a',
        11 => 'b',
        12 => 'c',
        13 => 'd',
        14 => 'e',
        _ => 'f',
    }
}

/// Appends a character as it stands in a quoted text.
fn push_quoted_char(out: &mut String, c: char)
    ensures
        final(out)@ == old(out)@ + quoted_char(c),
{
    let ghost before = out@;
    let n: u32 = c as u32;
    if c == '"' || c == '\\' {
        out.push('\\');
        out.push(c);
    } else if c == '\n' {
        out.push('\\');
        out.push('n');
    } else if c == '\r' {
        out.push('\\');
        out.push('r');
    } else if c == '\t' {
        out.push('\\');
        out.push('t');
    } else if n == 0 {
        out.push('\\');
        out.push('0');
    } else if n < 32 || n == 127 {
        out.push('\\');
        out.push('u');
        out.push('{');
        if n >= 16 {
            out.push(small_hex(n / 16));
        }
        out.push(small_hex(n % 16));
        out.push('}');
    } else {
        out.push(c);
    }
    assert(out@ =~= before + quoted_char(c));
}

/// Appends a text in quotes.
pub fn push_quoted(out: &mut String, text: &str)
    ensures
        final(out)@ == old(out)@ + quoted_text(text@),
{
    let ghost before = out@;
    let chars = chars_of(text);
    out.push('"');
    let ghost opened = out@;
    let mut i: usize = 0;
    assert(text@.take(0) =~= Seq::empty());
    assert(opened =~= opened + Seq::<char>::empty());
    while i < chars.len()
        invariant
            i <= chars@.len(),
            chars@ == text@,
            out@ == opened + quoted_chars(text@.take(i as int)),
        decreases chars.len() - i,
    {
        push_quoted_char(out, chars[i]);
        i = i + 1;
        assert(text@.take(i as int).drop_last() =~= text@.take(i - 1));
        assert(out@ =~= opened + quoted_chars(text@.take(i as int)));
    }
    out.push('"');
    assert(text@.take(text@.len() as int) =~= text@);
    assert(out@ =~= before + quoted_text(text@));
}

/// A text without the slashes at its end.
pub open spec fn without_slashes(s: Seq<char>) -> Seq<char>
    decreases s.len(),
{
    if s.len() > 0 && s.last() == '/' {
        without_slashes(s.drop_last())
    } else {
        s
    }
}

/// A text without the slashes at its end.
pub fn strip_slashes(text: &str) -> (out: String)
    ensures
        out@ == without_slashes(text@),
{
    let chars = chars_of(text);
    let mut to: usize = chars.len();
    assert(text@.take(to as int) =~= text@);
    while to > 0 && chars[to - 1] == '/'
        invariant
            to <= chars@.len(),
            chars@ == text@,
            without_slashes(text@.take(to as int)) == without_slashes(text@),
        decreases to,
    {
        assert(text@.take(to as int).drop_last() =~= text@.take(to - 1));
        to = to - 1;
    }
    assert(chars@.subrange(0, to as int) =~= text@.take(to as int));
    string_of(&chars, 0, to)
}

/// A text of white space and nothing else.
pub open spec fn all_blank(s: Seq<char>) -> bool {
    forall|i: int| 0 <= i < s.len() ==> is_blank(#[trigger] s[i])
}

proof fn lemma_trimmed_start(s: Seq<char>) -> (cut: Seq<char>)
    ensures
        s == cut + trimmed_start(s),
        all_blank(cut),
        trimmed_start(s).len() > 0 ==> !is_blank(trimmed_start(s)[0]),
    decreases s.len(),
{
    if s.len() > 0 && is_blank(s[0]) {
        let rest = lemma_trimmed_start(s.drop_first());
        let cut = seq![s[0]] + rest;
        assert(s =~= seq![s[0]] + s.drop_first());
        assert(s =~= cut + trimmed_start(s));
        assert forall|i: int| 0 <= i < cut.len() implies is_blank(#[trigger] cut[i]) by {
            if i > 0 {
                assert(cut[i] == rest[i - 1]);
            }
        }
        cut
    } else {
        assert(s =~= Seq::<char>::empty() + s);
        Seq::empty()
    }
}

proof fn lemma_trimmed_end(s: Seq<char>) -> (cut: Seq<char>)
    ensures
        s == trimmed_end(s) + cut,
        all_blank(cut),
        trimmed_end(s).len() > 0 ==> !is_blank(trimmed_end(s).last()),
    decreases s.len(),
{
    if s.len() > 0 && is_blank(s.last()) {
        let rest = lemma_trimmed_end(s.drop_last());
        let cut = rest.push(s.last());
        assert(s =~= s.drop_last().push(s.last()));
        assert(s =~= trimmed_end(s) + cut);
        cut
    } else {
        assert(s =~= s + Seq::<char>::empty());
        Seq::empty()
    }
}

/// Law: trimming takes white space off both ends of a text, all of it, and
/// nothing else.
pub proof fn trimming_takes_white_space_alone(s: Seq<char>)
    ensures
        exists|before: Seq<char>, after: Seq<char>|
            all_blank(before) && all_blank(after) && s == #[trigger] (before + trimmed(s) + after),
        trimmed(s).len() > 0 ==> !is_blank(trimmed(s)[0]) && !is_blank(trimmed(s).last()),
{
    let before = lemma_trimmed_start(s);
    let middle = trimmed_start(s);
    let after = lemma_trimmed_end(middle);
    assert(s =~= before + trimmed(s) + after);
    if trimmed(s).len() > 0 {
        assert(middle[0] == trimmed(s)[0]);
    }
}

/// A text that trimming leaves.
pub proof fn lemma_trimmed_same(s: Seq<char>)
    requires
        s.len() > 0 ==> !is_blank(s[0]) && !is_blank(s.last()),
    ensures
        trimmed(s) == s,
{
}

/// Law: among the ASCII characters, white space is the space, the tab, the line
/// feed, the vertical tab, the form feed and the carriage return.
pub proof fn ascii_white_space(c: char)
    requires
        (c as u32) < 128,
    ensures
        is_blank(c) <==> c == ' ' || c == '\t' || c == '\n' || c == '\r' || c == '\u{b}' || c
            == '\u{c}',
{
}

/// Law: taking the slashes off the end of a text takes all of them, and nothing
/// else.
pub proof fn slashes_are_taken_off_the_end(s: Seq<char>)
    ensures
        ({
            let base = without_slashes(s);
            &&& base.is_prefix_of(s)
            &&& base.len() > 0 ==> base.last() != '/'
            &&& forall|i: int| base.len() <= i < s.len() ==> #[trigger] s[i] == '/'
        }),
    decreases s.len(),
{
    if s.len() > 0 && s.last() == '/' {
        slashes_are_taken_off_the_end(s.drop_last());
        let base = without_slashes(s);
        assert forall|i: int| base.len() <= i < s.len() implies #[trigger] s[i] == '/' by {
            if i < s.len() - 1 {
                assert(s.drop_last()[i] == '/');
            }
        }
        assert(base =~= s.take(base.len() as int)) by {
            assert(base =~= s.drop_last().take(base.len() as int));
        }
    }
}

/// Law: one text comes before another where it is a proper beginning of it, or
/// has the smaller character where they first differ.
pub proof fn texts_are_ordered_by_their_first_difference(a: Seq<char>, b: Seq<char>, n: int)
    requires
        0 <= n <= a.len(),
        n <= b.len(),
        forall|i: int| 0 <= i < n ==> a[i] == #[trigger] b[i],
        n < a.len() && n < b.len() ==> a[n] != b[n],
    ensures
        n == a.len() && n < b.len() ==> text_lt(a, b),
        n == b.len() ==> !text_lt(a, b),
        n < a.len() && n < b.len() ==> (text_lt(a, b) <==> (a[n] as u32) < (b[n] as u32)),
    decreases n,
{
    if n > 0 {
        let x = a.drop_first();
        let y = b.drop_first();
        assert forall|i: int| 0 <= i < n - 1 implies x[i] == #[trigger] y[i] by {
            assert(a[i + 1] == b[i + 1]);
        }
        assert(a[0] == b[0]);
        texts_are_ordered_by_their_first_difference(x, y, n - 1);
    }
}

proof fn lemma_same_letter(a: char, b: char)
    ensures
        ascii_upper(a) == ascii_upper(b) <==> {
            ||| a == b
            ||| 97 <= a as u32 <= 122 && b as u32 + 32 == a as u32
            ||| 97 <= b as u32 <= 122 && a as u32 + 32 == b as u32
        },
{
}

/// Law: two texts are the same but for case where each character of one is that
/// of the other, or the same ASCII letter in the other case.
pub proof fn case_is_all_that_may_differ(a: Seq<char>, b: Seq<char>)
    ensures
        same_letters(a, b) <==> a.len() == b.len() && forall|i: int|
            0 <= i < a.len() ==> {
                ||| #[trigger] a[i] == b[i]
                ||| 97 <= a[i] as u32 <= 122 && b[i] as u32 + 32 == a[i] as u32
                ||| 97 <= b[i] as u32 <= 122 && a[i] as u32 + 32 == b[i] as u32
            },
{
    if a.len() == b.len() {
        assert forall|i: int| 0 <= i < a.len() implies (ascii_upper(#[trigger] a[i]) == ascii_upper(
            b[i],
        ) <==> {
            ||| a[i] == b[i]
            ||| 97 <= a[i] as u32 <= 122 && b[i] as u32 + 32 == a[i] as u32
            ||| 97 <= b[i] as u32 <= 122 && a[i] as u32 + 32 == b[i] as u32
        }) by {
            lemma_same_letter(a[i], b[i]);
        }
    }
}

/// Law: an unsigned number is read from the text that writes it, with a plus
/// sign or without, where it can be held, and from nothing that begins with
/// another sign.
pub proof fn an_unsigned_number_reads_back(n: nat, s: Seq<char>)
    ensures
        unsigned_value(decimal_text(n)) == if n <= 0xffff_ffff_ffff_ffff {
            Some(n as u64)
        } else {
            None
        },
        unsigned_value(seq!['+'] + decimal_text(n)) == unsigned_value(decimal_text(n)),
        s.len() > 0 && s[0] == '-' ==> unsigned_value(s) is None,
        unsigned_value(Seq::empty()) is None,
{
    decimal_text_reads_back(n);
    let text = decimal_text(n);
    lemma_first_digit(text);
    assert((seq!['+'] + text).drop_first() =~= text);
    assert((seq!['+'] + text)[0] == '+');
    if s.len() > 0 && digits_value(s) is Some {
        lemma_first_digit(s);
    }
}

/// What begins a number of digits is a digit.
proof fn lemma_first_digit(s: Seq<char>)
    requires
        digits_value(s) is Some,
    ensures
        s.len() > 0,
        digit_value(s[0]) is Some,
        s[0] != '+',
        s[0] != '-',
    decreases s.len(),
{
    if s.len() > 1 {
        lemma_first_digit(s.drop_last());
        assert(s.drop_last()[0] == s[0]);
    } else {
        assert(s.last() == s[0]);
    }
}

} // verus!
