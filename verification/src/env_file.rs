//! `KEY=VALUE` lines, as an environment file holds them.
use vstd::prelude::*;
use vstd::string::*;

use crate::text::{
    all_blank, chars_of, is_blank, lemma_trimmed_same, string_of, trim, trimmed,
    trimming_takes_white_space_alone,
};

verus! {

/// A text without a character at its start, however often it stands there.
pub open spec fn stripped_start(s: Seq<char>, q: char) -> Seq<char>
    decreases s.len(),
{
    if s.len() > 0 && s[0] == q {
        stripped_start(s.drop_first(), q)
    } else {
        s
    }
}

/// A text without a character at its end, however often it stands there.
pub open spec fn stripped_end(s: Seq<char>, q: char) -> Seq<char>
    decreases s.len(),
{
    if s.len() > 0 && s.last() == q {
        stripped_end(s.drop_last(), q)
    } else {
        s
    }
}

/// A text without a character at either end.
pub open spec fn stripped(s: Seq<char>, q: char) -> Seq<char> {
    stripped_end(stripped_start(s, q), q)
}

/// Where a character first stands, from a position on, or the length.
pub open spec fn first_at(s: Seq<char>, c: char, from: int) -> int
    decreases s.len() - from,
{
    if from < 0 || from >= s.len() {
        s.len() as int
    } else if s[from] == c {
        from
    } else {
        first_at(s, c, from + 1)
    }
}

pub proof fn lemma_first_at(s: Seq<char>, c: char, from: int)
    requires
        0 <= from <= s.len(),
    ensures
        from <= first_at(s, c, from) <= s.len(),
    decreases s.len() - from,
{
    if from < s.len() && s[from] != c {
        lemma_first_at(s, c, from + 1);
    }
}

/// What a line sets. Blank lines, comments, lines without an equals sign and
/// lines without a key set nothing. A value may be quoted.
pub open spec fn line_entry(line: Seq<char>) -> Option<(Seq<char>, Seq<char>)> {
    let text = trimmed(line);
    let at = first_at(text, '=', 0);
    if text.len() == 0 || text[0] == '#' || at >= text.len() {
        None
    } else {
        let key = trimmed(text.take(at));
        let value = stripped(stripped(trimmed(text.skip(at + 1)), '"'), '\'');
        if key.len() == 0 {
            None
        } else {
            Some((key, value))
        }
    }
}

/// What the lines of a text set, in order, from a position on.
pub open spec fn entries_from(text: Seq<char>, from: int) -> Seq<(Seq<char>, Seq<char>)>
    decreases text.len() + 1 - from,
{
    if from < 0 || from >= text.len() {
        Seq::empty()
    } else {
        proof {
            lemma_first_at(text, '\n', from);
        }
        let end = first_at(text, '\n', from);
        let rest = entries_from(text, end + 1);
        match line_entry(text.subrange(from, end)) {
            Some(entry) => seq![entry] + rest,
            None => rest,
        }
    }
}

pub open spec fn entries_view(entries: Seq<(String, String)>) -> Seq<(Seq<char>, Seq<char>)> {
    Seq::new(entries.len(), |i: int| (entries[i].0@, entries[i].1@))
}

/// A stretch of characters.
fn part(chars: &Vec<char>, from: usize, to: usize) -> (out: Vec<char>)
    requires
        from <= to <= chars@.len(),
    ensures
        out@ == chars@.subrange(from as int, to as int),
{
    let mut out: Vec<char> = Vec::new();
    let mut i: usize = from;
    while i < to
        invariant
            from <= i <= to <= chars@.len(),
            out@ == chars@.subrange(from as int, i as int),
        decreases to - i,
    {
        out.push(chars[i]);
        i = i + 1;
        assert(out@ =~= chars@.subrange(from as int, i as int));
    }
    out
}

/// A stretch of characters without the blanks at its ends.
fn trimmed_part(chars: &Vec<char>, from: usize, to: usize) -> (out: Vec<char>)
    requires
        from <= to <= chars@.len(),
    ensures
        out@ == trimmed(chars@.subrange(from as int, to as int)),
{
    let whole = part(chars, from, to);
    let (a, b) = trim(&whole);
    part(&whole, a, b)
}

/// The characters without one at either end.
fn strip(chars: &Vec<char>, q: char) -> (out: Vec<char>)
    ensures
        out@ == stripped(chars@, q),
{
    let ghost s = chars@;
    let mut from: usize = 0;
    assert(s.skip(0) =~= s);
    while from < chars.len() && chars[from] == q
        invariant
            from <= chars@.len(),
            s == chars@,
            stripped_start(s.skip(from as int), q) == stripped_start(s, q),
        decreases chars.len() - from,
    {
        assert(s.skip(from as int).drop_first() =~= s.skip(from + 1));
        from = from + 1;
    }
    let mut to: usize = chars.len();
    assert(s.subrange(from as int, to as int) =~= s.skip(from as int));
    while from < to && chars[to - 1] == q
        invariant
            from <= to <= chars@.len(),
            s == chars@,
            stripped_end(s.subrange(from as int, to as int), q) == stripped(s, q),
        decreases to - from,
    {
        assert(s.subrange(from as int, to as int).drop_last() =~= s.subrange(
            from as int,
            to - 1,
        ));
        to = to - 1;
    }
    part(chars, from, to)
}

/// Where a character first stands, or the length.
fn find(chars: &Vec<char>, c: char, from: usize) -> (at: usize)
    requires
        from <= chars@.len(),
    ensures
        at == first_at(chars@, c, from as int),
        from <= at <= chars@.len(),
{
    let mut i: usize = from;
    while i < chars.len() && chars[i] != c
        invariant
            from <= i <= chars@.len(),
            first_at(chars@, c, i as int) == first_at(chars@, c, from as int),
        decreases chars.len() - i,
    {
        i = i + 1;
    }
    i
}

fn read_line(chars: &Vec<char>, from: usize, to: usize) -> (entry: Option<(String, String)>)
    requires
        from <= to <= chars@.len(),
    ensures
        match entry {
            Some(pair) => line_entry(chars@.subrange(from as int, to as int)) == Some(
                (pair.0@, pair.1@),
            ),
            None => line_entry(chars@.subrange(from as int, to as int)) is None,
        },
{
    let text = trimmed_part(chars, from, to);
    if text.len() == 0 || text[0] == '#' {
        return None;
    }
    let at = find(&text, '=', 0);
    if at >= text.len() {
        return None;
    }
    let key = trimmed_part(&text, 0, at);
    assert(text@.subrange(0, at as int) =~= text@.take(at as int));
    if key.len() == 0 {
        return None;
    }
    let value = trimmed_part(&text, at + 1, text.len());
    assert(text@.subrange(at + 1, text@.len() as int) =~= text@.skip(at + 1));
    let value = strip(&strip(&value, '"'), '\'');
    let key_text = string_of(&key, 0, key.len());
    let value_text = string_of(&value, 0, value.len());
    assert(key@.subrange(0, key@.len() as int) =~= key@);
    assert(value@.subrange(0, value@.len() as int) =~= value@);
    Some((key_text, value_text))
}

/// What the lines of a text set, in order.
pub fn read_env(text: &str) -> (entries: Vec<(String, String)>)
    ensures
        entries_view(entries@) == entries_from(text@, 0),
{
    let chars = chars_of(text);
    let mut entries: Vec<(String, String)> = Vec::new();
    let mut from: usize = 0;
    assert(entries_view(entries@) + entries_from(text@, 0) =~= entries_from(text@, 0));
    while from < chars.len()
        invariant
            from <= chars@.len(),
            chars@ == text@,
            entries_view(entries@) + entries_from(text@, from as int) == entries_from(text@, 0),
        decreases chars.len() - from,
    {
        let end = find(&chars, '\n', from);
        let ghost before = entries_view(entries@);
        let ghost rest = entries_from(text@, end + 1);
        if let Some(entry) = read_line(&chars, from, end) {
            let ghost view = (entry.0@, entry.1@);
            entries.push(entry);
            assert(entries_view(entries@) =~= before.push(view));
            assert(before.push(view) + rest =~= before + (seq![view] + rest));
        }
        if end >= chars.len() {
            assert(rest =~= Seq::empty());
            assert(entries_view(entries@) + rest =~= entries_view(entries@));
            return entries;
        }
        from = end + 1;
    }
    assert(entries_view(entries@) + entries_from(text@, from as int) =~= entries_view(entries@));
    entries
}

/// Law: nothing is set under an empty name.
pub proof fn every_entry_has_a_key(text: Seq<char>, from: int)
    ensures
        forall|i: int|
            0 <= i < entries_from(text, from).len() ==> (#[trigger] entries_from(
                text,
                from,
            )[i]).0.len() > 0,
    decreases text.len() + 1 - from,
{
    if 0 <= from < text.len() {
        lemma_first_at(text, '\n', from);
        let end = first_at(text, '\n', from);
        every_entry_has_a_key(text, end + 1);
        let rest = entries_from(text, end + 1);
        if let Some(entry) = line_entry(text.subrange(from, end)) {
            assert forall|i: int| 0 <= i < entries_from(text, from).len() implies (
            #[trigger] entries_from(text, from)[i]).0.len() > 0 by {
                if i > 0 {
                    assert(entries_from(text, from)[i] == rest[i - 1]);
                }
            }
        }
    }
}

proof fn lemma_first_is(s: Seq<char>, c: char, from: int, at: int)
    requires
        0 <= from <= at <= s.len(),
        forall|k: int| from <= k < at ==> #[trigger] s[k] != c,
        at < s.len() ==> s[at] == c,
    ensures
        first_at(s, c, from) == at,
    decreases at - from,
{
    if from < at {
        lemma_first_is(s, c, from + 1, at);
    }
}

proof fn lemma_not_stripped(s: Seq<char>, q: char)
    requires
        s.len() > 0 ==> s[0] != q && s.last() != q,
    ensures
        stripped(s, q) == s,
{
}

proof fn lemma_stripped_once(s: Seq<char>, q: char)
    requires
        s.len() > 0 ==> s[0] != q && s.last() != q,
    ensures
        stripped((seq![q] + s).push(q), q) == s,
{
    let quoted = (seq![q] + s).push(q);
    assert(quoted.drop_first() =~= s.push(q));
    reveal_with_fuel(stripped_start, 3);
    reveal_with_fuel(stripped_end, 3);
    if s.len() == 0 {
        assert(s.push(q).drop_first() =~= s);
        assert(stripped_start(quoted, q) =~= s);
    } else {
        assert(stripped_start(quoted, q) == s.push(q));
        assert(s.push(q).drop_last() =~= s);
    }
}

/// A text that neither starts nor ends with white space or a quote.
pub open spec fn is_bare(s: Seq<char>) -> bool {
    s.len() > 0 ==> {
        &&& !is_blank(s[0]) && s[0] != '"' && s[0] != '\''
        &&& !is_blank(s.last()) && s.last() != '"' && s.last() != '\''
    }
}

/// Law: a line sets what stands before its first equals sign to what stands
/// after it, and quotes around the value, of either kind, are not part of it.
pub proof fn a_line_sets_its_key_to_its_value(key: Seq<char>, value: Seq<char>)
    requires
        key.len() > 0,
        key[0] != '#',
        !is_blank(key[0]),
        !is_blank(key.last()),
        !key.contains('='),
        is_bare(value),
    ensures
        line_entry(key + seq!['='] + value) == Some((key, value)),
        line_entry(key + seq!['='] + (seq!['"'] + value).push('"')) == Some((key, value)),
        line_entry(key + seq!['='] + (seq!['\''] + value).push('\'')) == Some((key, value)),
{
    lemma_line(key, value, value);
    lemma_not_stripped(value, '"');
    lemma_not_stripped(value, '\'');
    let double = (seq!['"'] + value).push('"');
    lemma_line(key, double, value);
    lemma_stripped_once(value, '"');
    let single = (seq!['\''] + value).push('\'');
    lemma_line(key, single, value);
    lemma_not_stripped(single, '"');
    lemma_stripped_once(value, '\'');
}

/// What a line that is a key, an equals sign and more sets.
proof fn lemma_line(key: Seq<char>, after: Seq<char>, value: Seq<char>)
    requires
        key.len() > 0,
        key[0] != '#',
        !is_blank(key[0]),
        !is_blank(key.last()),
        !key.contains('='),
        after.len() > 0 ==> !is_blank(after[0]) && !is_blank(after.last()),
    ensures
        line_entry(key + seq!['='] + after) == Some(
            (key, stripped(stripped(after, '"'), '\'')),
        ),
{
    let line = key + seq!['='] + after;
    assert(line[0] == key[0]);
    assert(line.last() == if after.len() > 0 {
        after.last()
    } else {
        '='
    });
    lemma_trimmed_same(line);
    assert forall|k: int| 0 <= k < key.len() implies #[trigger] line[k] != '=' by {
        assert(line[k] == key[k]);
        assert(key.contains(key[k]));
    }
    assert(line[key.len() as int] == '=');
    lemma_first_is(line, '=', 0, key.len() as int);
    assert(line.take(key.len() as int) =~= key);
    assert(line.skip(key.len() + 1int) =~= after);
    lemma_trimmed_same(key);
    lemma_trimmed_same(after);
}

/// Law: a line that is blank, a comment or without an equals sign sets nothing.
pub proof fn other_lines_set_nothing(line: Seq<char>)
    ensures
        all_blank(line) ==> line_entry(line) is None,
        line.len() > 0 && line[0] == '#' ==> line_entry(line) is None,
        !line.contains('=') ==> line_entry(line) is None,
{
    trimming_takes_white_space_alone(line);
    let text = trimmed(line);
    let (before, after) = choose|before: Seq<char>, after: Seq<char>|
        all_blank(before) && all_blank(after) && line == #[trigger] (before + trimmed(line)
            + after);
    if all_blank(line) && text.len() > 0 {
        assert(line[before.len() as int] == text[0]);
    }
    if line.len() > 0 && line[0] == '#' {
        if before.len() > 0 {
            assert(line[0] == before[0]);
        } else if text.len() > 0 {
            assert(line[0] == text[0]);
        } else {
            assert(line[0] == after[0]);
        }
    }
    if !line.contains('=') {
        lemma_first_at(text, '=', 0);
        lemma_found(text, '=', 0);
        let at = first_at(text, '=', 0);
        if at < text.len() {
            assert(line[before.len() + at] == text[at]);
        }
    }
}

proof fn lemma_found(s: Seq<char>, c: char, from: int)
    requires
        0 <= from <= s.len(),
    ensures
        first_at(s, c, from) < s.len() ==> s[first_at(s, c, from)] == c,
    decreases s.len() - from,
{
    if from < s.len() && s[from] != c {
        lemma_found(s, c, from + 1);
    }
}

/// Law: what a text sets is what its first line sets, and then what the rest
/// of it sets.
pub proof fn lines_are_read_in_turn(line: Seq<char>, rest: Seq<char>)
    requires
        !line.contains('\n'),
    ensures
        entries_from(line + seq!['\n'] + rest, 0) == (match line_entry(line) {
            Some(entry) => seq![entry],
            None => Seq::empty(),
        }) + entries_from(rest, 0),
{
    let text = line + seq!['\n'] + rest;
    assert forall|k: int| 0 <= k < line.len() implies #[trigger] text[k] != '\n' by {
        assert(text[k] == line[k]);
        assert(line.contains(line[k]));
    }
    assert(text[line.len() as int] == '\n');
    lemma_first_is(text, '\n', 0, line.len() as int);
    assert(text.subrange(0, line.len() as int) =~= line);
    assert(text.skip(line.len() + 1int) =~= rest);
    lemma_shifted(text, rest, line.len() + 1int, 0);
    let after = entries_from(rest, 0);
    assert(Seq::<(Seq<char>, Seq<char>)>::empty() + after =~= after);
}

/// Entries do not depend on what stands before them.
proof fn lemma_shifted(text: Seq<char>, rest: Seq<char>, by: int, from: int)
    requires
        0 <= by,
        0 <= from,
        text.len() == rest.len() + by,
        text.skip(by) == rest,
    ensures
        entries_from(text, by + from) == entries_from(rest, from),
    decreases rest.len() + 1 - from,
{
    if from < rest.len() {
        lemma_first_shifted(text, rest, by, from);
        lemma_first_at(rest, '\n', from);
        let end = first_at(rest, '\n', from);
        assert(text.subrange(by + from, by + end) =~= rest.subrange(from, end));
        lemma_shifted(text, rest, by, end + 1);
    }
}

proof fn lemma_first_shifted(text: Seq<char>, rest: Seq<char>, by: int, from: int)
    requires
        0 <= by,
        0 <= from <= rest.len(),
        text.len() == rest.len() + by,
        text.skip(by) == rest,
    ensures
        first_at(text, '\n', by + from) == by + first_at(rest, '\n', from),
    decreases rest.len() - from,
{
    if from < rest.len() {
        assert(rest[from] == text[by + from]);
        lemma_first_shifted(text, rest, by, from + 1);
    }
}

} // verus!
