//! Which texts hold a key twice: said of a text by how it is put together out
//! of lists, tables and texts, and where a repeated key is reported.
use vstd::prelude::*;

use crate::codec::{
    after_mark, awaiting_key, duplicate_from, is_json_blank, json_document, place, report_at,
    skip_blank, strict_document, string_end, LevelView, StrictErrorView,
};
use crate::json::JsonView;

verus! {

/// A text as it is written: what is neither a quote nor a bracket nor a comma,
/// a quoted text, and lists and tables of such, with anything plain in between.
pub enum Written {
    Plain(Seq<u8>),
    /// What stands between the quotes.
    Quoted(Seq<u8>),
    Spaced(Seq<u8>, Box<Written>, Seq<u8>),
    List(Seq<Written>),
    Table(Seq<Entry>),
}

/// An entry of a table: what stands before its key, the key, what stands
/// between the key and the value, and the value.
pub struct Entry {
    pub before: Seq<u8>,
    pub key: Seq<u8>,
    pub between: Seq<u8>,
    pub value: Written,
}

pub open spec fn quoted(content: Seq<u8>) -> Seq<u8> {
    seq![34u8] + content + seq![34u8]
}

/// The bytes of a written text.
pub open spec fn bytes_of(written: Written) -> Seq<u8>
    decreases written, 1nat,
{
    match written {
        Written::Plain(bytes) => bytes,
        Written::Quoted(content) => quoted(content),
        Written::Spaced(before, inner, after) => before + bytes_of(*inner) + after,
        Written::List(items) => seq![91u8] + list_bytes(items) + seq![93u8],
        Written::Table(entries) => seq![123u8] + table_bytes(entries) + seq![125u8],
    }
}

pub open spec fn list_bytes(items: Seq<Written>) -> Seq<u8>
    decreases items, 0nat,
{
    if items.len() == 0 {
        Seq::empty()
    } else if items.len() == 1 {
        bytes_of(items.last())
    } else {
        list_bytes(items.drop_last()) + seq![44u8] + bytes_of(items.last())
    }
}

pub open spec fn entry_bytes(entry: Entry) -> Seq<u8>
    decreases entry, 2nat,
{
    entry.before + quoted(entry.key) + entry.between + bytes_of(entry.value)
}

pub open spec fn table_bytes(entries: Seq<Entry>) -> Seq<u8>
    decreases entries, 0nat,
{
    if entries.len() == 0 {
        Seq::empty()
    } else if entries.len() == 1 {
        entry_bytes(entries.last())
    } else {
        table_bytes(entries.drop_last()) + seq![44u8] + entry_bytes(entries.last())
    }
}

/// Neither a quote nor a bracket nor a comma.
pub open spec fn plain_byte(b: u8) -> bool {
    b != 34 && b != 44 && b != 91 && b != 93 && b != 123 && b != 125
}

pub open spec fn plain_bytes(bytes: Seq<u8>) -> bool {
    forall|i: int| 0 <= i < bytes.len() ==> plain_byte(#[trigger] bytes[i])
}

/// Bytes that may stand between quotes: every quote among them is escaped, and
/// the last byte escapes nothing.
pub open spec fn quotable(content: Seq<u8>) -> bool
    decreases content.len(),
{
    if content.len() == 0 {
        true
    } else if content[0] == 34 {
        false
    } else if content[0] == 92 {
        content.len() >= 2 && quotable(content.skip(2))
    } else {
        quotable(content.skip(1))
    }
}

/// The text that a key is.
pub open spec fn name_of(key: Seq<u8>) -> Option<Seq<char>> {
    match json_document(quoted(key)) {
        Ok(JsonView::Text(name)) => Some(name),
        _ => None,
    }
}

/// A text that is put together rightly, and whose keys are texts.
pub open spec fn well_written(written: Written) -> bool
    decreases written, 1nat,
{
    match written {
        Written::Plain(bytes) => plain_bytes(bytes),
        Written::Quoted(content) => quotable(content),
        Written::Spaced(before, inner, after) => plain_bytes(before) && plain_bytes(after)
            && well_written(*inner),
        Written::List(items) => list_well_written(items),
        Written::Table(entries) => table_well_written(entries),
    }
}

pub open spec fn list_well_written(items: Seq<Written>) -> bool
    decreases items, 0nat,
{
    items.len() > 0 ==> list_well_written(items.drop_last()) && well_written(items.last())
}

pub open spec fn table_well_written(entries: Seq<Entry>) -> bool
    decreases entries, 0nat,
{
    entries.len() > 0 ==> {
        &&& table_well_written(entries.drop_last())
        &&& plain_bytes(entries.last().before)
        &&& quotable(entries.last().key)
        &&& name_of(entries.last().key) is Some
        &&& plain_bytes(entries.last().between)
        &&& well_written(entries.last().value)
    }
}

/// Two entries of a table have this name.
pub open spec fn named_twice(entries: Seq<Entry>, name: Seq<char>) -> bool {
    exists|i: int, j: int|
        0 <= i < j < entries.len() && name_of((#[trigger] entries[i]).key) == Some(name) && name_of(
            (#[trigger] entries[j]).key,
        ) == Some(name)
}

/// A table within the text has two entries of this name.
pub open spec fn repeats(written: Written, name: Seq<char>) -> bool
    decreases written, 1nat,
{
    match written {
        Written::Plain(_) => false,
        Written::Quoted(_) => false,
        Written::Spaced(_, inner, _) => repeats(*inner, name),
        Written::List(items) => list_repeats(items, name),
        Written::Table(entries) => named_twice(entries, name) || values_repeat(entries, name),
    }
}

pub open spec fn list_repeats(items: Seq<Written>, name: Seq<char>) -> bool
    decreases items, 0nat,
{
    items.len() > 0 && (list_repeats(items.drop_last(), name) || repeats(items.last(), name))
}

pub open spec fn values_repeat(entries: Seq<Entry>, name: Seq<char>) -> bool
    decreases entries, 0nat,
{
    entries.len() > 0 && (values_repeat(entries.drop_last(), name) || repeats(
        entries.last().value,
        name,
    ))
}

// ---------------------------------------------------------------------------
// The scan.

/// The bytes from a position on are these.
pub open spec fn stands_at(all: Seq<u8>, i: int, part: Seq<u8>) -> bool {
    0 <= i && i + part.len() <= all.len() && all.subrange(i, i + part.len()) == part
}

proof fn lemma_byte_at(all: Seq<u8>, i: int, part: Seq<u8>, k: int)
    requires
        stands_at(all, i, part),
        0 <= k < part.len(),
    ensures
        all[i + k] == part[k],
{
    assert(all.subrange(i, i + part.len())[k] == all[i + k]);
}

proof fn lemma_parts_at(all: Seq<u8>, i: int, a: Seq<u8>, b: Seq<u8>)
    requires
        stands_at(all, i, a + b),
    ensures
        stands_at(all, i, a),
        stands_at(all, i + a.len(), b),
{
    let both = a + b;
    let here = all.subrange(i, i + both.len());
    let n = a.len() as int;
    assert(here == both);
    assert(both.subrange(0, n) =~= a);
    assert(both.subrange(n, both.len() as int) =~= b);
    assert(all.subrange(i, i + n) =~= here.subrange(0, n));
    assert(all.subrange(i + n, i + n + b.len()) =~= here.subrange(n, both.len() as int));
}

/// What is plain is passed over.
proof fn lemma_plain(all: Seq<u8>, i: int, part: Seq<u8>, levels: Seq<LevelView>)
    requires
        stands_at(all, i, part),
        plain_bytes(part),
    ensures
        duplicate_from(all, i, levels) == duplicate_from(all, i + part.len(), levels),
    decreases part.len(),
{
    if part.len() > 0 {
        lemma_byte_at(all, i, part, 0);
        assert(plain_byte(part[0]));
        let rest = part.skip(1);
        assert(part =~= seq![part[0]] + rest);
        lemma_parts_at(all, i, seq![part[0]], rest);
        assert forall|k: int| 0 <= k < rest.len() implies plain_byte(#[trigger] rest[k]) by {
            assert(rest[k] == part[k + 1]);
        }
        assert(after_mark(levels, all[i]) == levels);
        lemma_plain(all, i + 1, rest, levels);
    }
}

/// A quoted text ends at its closing quote.
proof fn lemma_content(all: Seq<u8>, i: int, content: Seq<u8>)
    requires
        stands_at(all, i, content + seq![34u8]),
        quotable(content),
    ensures
        string_end(all, i) == Some(i + content.len() + 1),
    decreases content.len(),
{
    let part = content + seq![34u8];
    lemma_byte_at(all, i, part, 0);
    if content.len() > 0 {
        assert(part[0] == content[0]);
        let n: int = if content[0] == 92 {
            2
        } else {
            1
        };
        let rest = content.skip(n);
        assert(part =~= content.take(n) + (rest + seq![34u8]));
        lemma_parts_at(all, i, content.take(n), rest + seq![34u8]);
        lemma_content(all, i + n, rest);
    }
}

proof fn lemma_quoted(all: Seq<u8>, i: int, content: Seq<u8>)
    requires
        stands_at(all, i, quoted(content)),
        quotable(content),
    ensures
        all[i] == 34,
        string_end(all, i + 1) == Some(i + quoted(content).len()),
        all.subrange(i, i + quoted(content).len()) == quoted(content),
{
    lemma_byte_at(all, i, quoted(content), 0);
    assert(quoted(content) =~= seq![34u8] + (content + seq![34u8]));
    lemma_parts_at(all, i, seq![34u8], content + seq![34u8]);
    lemma_content(all, i + 1, content);
}

/// A scan over a written text finds a name that it repeats, or goes on behind
/// it where it repeats none.
pub open spec fn scanned(
    all: Seq<u8>,
    i: int,
    levels: Seq<LevelView>,
    j: int,
    after: Seq<LevelView>,
    repeated: spec_fn(Seq<char>) -> bool,
) -> bool {
    let found = duplicate_from(all, i, levels);
    (found matches Some((name, _)) && repeated(name)) || (found == duplicate_from(all, j, after)
        && forall|name: Seq<char>| !(#[trigger] repeated(name)))
}

proof fn lemma_scan(all: Seq<u8>, i: int, written: Written, levels: Seq<LevelView>)
    requires
        stands_at(all, i, bytes_of(written)),
        well_written(written),
        awaiting_key(levels) is None,
    ensures
        scanned(
            all,
            i,
            levels,
            i + bytes_of(written).len(),
            levels,
            |name: Seq<char>| repeats(written, name),
        ),
    decreases written, 1nat,
{
    let repeated = |name: Seq<char>| repeats(written, name);
    let j = i + bytes_of(written).len();
    match written {
        Written::Plain(bytes) => {
            lemma_plain(all, i, bytes, levels);
        },
        Written::Quoted(content) => {
            lemma_quoted(all, i, content);
        },
        Written::Spaced(before, inner, after) => {
            let middle = bytes_of(*inner);
            lemma_parts_at(all, i, before + middle, after);
            lemma_parts_at(all, i, before, middle);
            lemma_plain(all, i, before, levels);
            lemma_scan(all, i + before.len(), *inner, levels);
            lemma_plain(all, i + before.len() + middle.len(), after, levels);
            let within = |name: Seq<char>| repeats(*inner, name);
            assert(forall|name: Seq<char>| within(name) == #[trigger] repeated(name));
        },
        Written::List(items) => {
            let inside = list_bytes(items);
            lemma_parts_at(all, i, seq![91u8] + inside, seq![93u8]);
            lemma_parts_at(all, i, seq![91u8], inside);
            lemma_byte_at(all, i, seq![91u8], 0);
            let end = i + 1 + inside.len();
            lemma_byte_at(all, end, seq![93u8], 0);
            let deeper = levels.push(LevelView::Array);
            lemma_scan_list(all, i + 1, items, levels);
            assert(deeper.drop_last() =~= levels);
            assert(duplicate_from(all, i, levels) == duplicate_from(all, i + 1, deeper));
            assert(duplicate_from(all, end, deeper) == duplicate_from(all, end + 1, levels));
            let within = |name: Seq<char>| list_repeats(items, name);
            assert(forall|name: Seq<char>| within(name) == #[trigger] repeated(name));
        },
        Written::Table(entries) => {
            let inside = table_bytes(entries);
            lemma_parts_at(all, i, seq![123u8] + inside, seq![125u8]);
            lemma_parts_at(all, i, seq![123u8], inside);
            lemma_byte_at(all, i, seq![123u8], 0);
            let end = i + 1 + inside.len();
            lemma_byte_at(all, end, seq![125u8], 0);
            let deeper = at_key(levels, Seq::empty());
            lemma_scan_table(all, i + 1, entries, levels);
            let done = behind(levels, entries);
            assert(done.drop_last() =~= levels);
            assert(duplicate_from(all, i, levels) == duplicate_from(all, i + 1, deeper));
            assert(duplicate_from(all, end, done) == duplicate_from(all, end + 1, levels));
            let within = |name: Seq<char>|
                named_twice(entries, name) || values_repeat(entries, name);
            assert(forall|name: Seq<char>| within(name) == #[trigger] repeated(name));
        },
    }
}

proof fn lemma_scan_list(all: Seq<u8>, i: int, items: Seq<Written>, levels: Seq<LevelView>)
    requires
        stands_at(all, i, list_bytes(items)),
        list_well_written(items),
    ensures
        scanned(
            all,
            i,
            levels.push(LevelView::Array),
            i + list_bytes(items).len(),
            levels.push(LevelView::Array),
            |name: Seq<char>| list_repeats(items, name),
        ),
    decreases items, 0nat,
{
    let deeper = levels.push(LevelView::Array);
    let repeated = |name: Seq<char>| list_repeats(items, name);
    if items.len() > 0 {
        let front = items.drop_last();
        let last = bytes_of(items.last());
        let within_last = |name: Seq<char>| repeats(items.last(), name);
        let within_front = |name: Seq<char>| list_repeats(front, name);
        if items.len() == 1 {
            lemma_scan(all, i, items.last(), deeper);
            assert(front.len() == 0);
        } else {
            let first = list_bytes(front);
            lemma_parts_at(all, i, first + seq![44u8], last);
            lemma_parts_at(all, i, first, seq![44u8]);
            lemma_scan_list(all, i, front, levels);
            let comma = i + first.len();
            lemma_byte_at(all, comma, seq![44u8], 0);
            assert(duplicate_from(all, comma, deeper) == duplicate_from(all, comma + 1, deeper));
            lemma_scan(all, comma + 1, items.last(), deeper);
        }
        assert(forall|name: Seq<char>| #[trigger]
            repeated(name) == (within_front(name) || within_last(name)));
    }
}

/// In a table with these keys so far, before the next.
pub open spec fn at_key(levels: Seq<LevelView>, keys: Seq<Seq<char>>) -> Seq<LevelView> {
    levels.push(LevelView::Object { keys, key_next: true })
}

/// The names of a table's entries.
pub open spec fn names_of(entries: Seq<Entry>) -> Seq<Seq<char>> {
    Seq::new(entries.len(), |i: int| name_of(entries[i].key)->0)
}

/// In a table behind these entries of it.
pub open spec fn behind(levels: Seq<LevelView>, entries: Seq<Entry>) -> Seq<LevelView> {
    levels.push(
        LevelView::Object { keys: names_of(entries), key_next: entries.len() == 0 },
    )
}

proof fn lemma_names(entries: Seq<Entry>)
    requires
        table_well_written(entries),
    ensures
        forall|i: int| 0 <= i < entries.len() ==> name_of((#[trigger] entries[i]).key) is Some,
    decreases entries.len(),
{
    if entries.len() > 0 {
        let front = entries.drop_last();
        lemma_names(front);
        assert forall|i: int| 0 <= i < entries.len() implies name_of((#[trigger] entries[i]).key)
            is Some by {
            if i < front.len() {
                assert(front[i] == entries[i]);
            } else {
                assert(entries.last() == entries[i]);
            }
        }
    }
}

/// One entry, where the entries before it are known.
proof fn lemma_scan_entry(all: Seq<u8>, i: int, entries: Seq<Entry>, levels: Seq<LevelView>)
    requires
        entries.len() > 0,
        stands_at(all, i, entry_bytes(entries.last())),
        table_well_written(entries),
    ensures
        ({
            let entry = entries.last();
            let name = name_of(entry.key)->0;
            let keys = names_of(entries.drop_last());
            let start = at_key(levels, keys);
            let found = duplicate_from(all, i, start);
            if keys.contains(name) {
                found matches Some((twice, _)) && twice == name
            } else {
                scanned(
                    all,
                    i,
                    start,
                    i + entry_bytes(entry).len(),
                    behind(levels, entries),
                    |name: Seq<char>| repeats(entry.value, name),
                )
            }
        }),
    decreases entries, 0nat,
{
    let entry = entries.last();
    let name = name_of(entry.key)->0;
    let keys = names_of(entries.drop_last());
    let start = at_key(levels, keys);
    let value = bytes_of(entry.value);
    lemma_parts_at(all, i, entry.before + quoted(entry.key) + entry.between, value);
    lemma_parts_at(all, i, entry.before + quoted(entry.key), entry.between);
    lemma_parts_at(all, i, entry.before, quoted(entry.key));
    lemma_plain(all, i, entry.before, start);
    let at = i + entry.before.len();
    lemma_quoted(all, at, entry.key);
    let end = at + quoted(entry.key).len();
    assert(start.last() == LevelView::Object { keys, key_next: true });
    assert(awaiting_key(start) == Some(keys));
    if !keys.contains(name) {
        let next = behind(levels, entries);
        assert(names_of(entries) =~= keys.push(name)) by {
            assert(forall|k: int|
                0 <= k < entries.len() - 1 ==> entries.drop_last()[k] == entries[k]);
        }
        assert(start.drop_last() =~= levels);
        assert(duplicate_from(all, at, start) == duplicate_from(all, end, next));
        lemma_plain(all, end, entry.between, next);
        assert(awaiting_key(next) is None);
        lemma_scan(all, end + entry.between.len(), entry.value, next);
    }
}

proof fn lemma_scan_table(all: Seq<u8>, i: int, entries: Seq<Entry>, levels: Seq<LevelView>)
    requires
        stands_at(all, i, table_bytes(entries)),
        table_well_written(entries),
    ensures
        scanned(
            all,
            i,
            at_key(levels, Seq::empty()),
            i + table_bytes(entries).len(),
            behind(levels, entries),
            |name: Seq<char>| named_twice(entries, name) || values_repeat(entries, name),
        ),
    decreases entries, 1nat,
{
    let start = at_key(levels, Seq::empty());
    let repeated = |name: Seq<char>| named_twice(entries, name) || values_repeat(entries, name);
    if entries.len() == 0 {
        assert(names_of(entries) =~= Seq::empty());
    } else {
        let front = entries.drop_last();
        let entry = entries.last();
        let within_last = |name: Seq<char>| repeats(entry.value, name);
        let within_front = |name: Seq<char>|
            named_twice(front, name) || values_repeat(front, name);
        let keys = names_of(front);
        let name = name_of(entry.key)->0;
        lemma_names(entries);
        let at: int = if entries.len() == 1 {
            assert(names_of(front) =~= Seq::empty());
            i
        } else {
            let first = table_bytes(front);
            lemma_parts_at(all, i, first + seq![44u8], entry_bytes(entry));
            lemma_parts_at(all, i, first, seq![44u8]);
            lemma_scan_table(all, i, front, levels);
            let comma = i + first.len();
            lemma_byte_at(all, comma, seq![44u8], 0);
            let before = behind(levels, front);
            assert(before.drop_last() =~= levels);
            assert(after_mark(before, 44) == at_key(levels, keys));
            assert(duplicate_from(all, comma, before) == duplicate_from(
                all,
                comma + 1,
                at_key(levels, keys),
            ));
            comma + 1
        };
        lemma_scan_entry(all, at, entries, levels);
        lemma_twice(entries);
        if keys.contains(name) {
            assert(named_twice(entries, name));
            assert(repeated(name));
        }
        assert(forall|other: Seq<char>| #[trigger]
            repeated(other) == (within_front(other) || within_last(other) || (other == name
                && keys.contains(name))));
    }
}

/// A name is there twice among entries where it is among the others, or is the
/// last one's and one of theirs.
proof fn lemma_twice(entries: Seq<Entry>)
    requires
        entries.len() > 0,
        table_well_written(entries),
    ensures
        forall|other: Seq<char>| #[trigger]
            named_twice(entries, other) == (named_twice(entries.drop_last(), other) || (other
                == name_of(entries.last().key)->0 && names_of(entries.drop_last()).contains(
                other,
            ))),
{
    let front = entries.drop_last();
    let keys = names_of(front);
    let n = entries.len() - 1;
    lemma_names(entries);
    assert forall|other: Seq<char>| #[trigger]
        named_twice(entries, other) == (named_twice(front, other) || (other == name_of(
            entries.last().key,
        )->0 && keys.contains(other))) by {
        if named_twice(entries, other) {
            let (i, j) = choose|i: int, j: int|
                0 <= i < j < entries.len() && name_of((#[trigger] entries[i]).key) == Some(other)
                    && name_of((#[trigger] entries[j]).key) == Some(other);
            assert(front[i] == entries[i]);
            if j < n {
                assert(front[j] == entries[j]);
            } else {
                assert(keys[i] == other);
            }
        }
        if named_twice(front, other) {
            let (i, j) = choose|i: int, j: int|
                0 <= i < j < front.len() && name_of((#[trigger] front[i]).key) == Some(other)
                    && name_of((#[trigger] front[j]).key) == Some(other);
            assert(front[i] == entries[i] && front[j] == entries[j]);
        }
        if other == name_of(entries.last().key)->0 && keys.contains(other) {
            let i = choose|i: int| 0 <= i < keys.len() && keys[i] == other;
            assert(front[i] == entries[i]);
            assert(name_of(entries[i].key) == Some(other));
            assert(name_of(entries[n].key) == Some(other));
        }
    }
}

/// Law: a text is found to repeat a key exactly where a table in it, at any
/// depth, has two entries of one name, however the names are written; and the
/// key that is reported is such a name.
pub proof fn a_key_is_repeated_where_a_table_has_it_twice(written: Written)
    requires
        well_written(written),
    ensures
        match duplicate_from(bytes_of(written), 0, Seq::empty()) {
            Some((name, _)) => repeats(written, name),
            None => forall|name: Seq<char>| !(#[trigger] repeats(written, name)),
        },
{
    let all = bytes_of(written);
    let levels = Seq::<LevelView>::empty();
    assert(all.subrange(0, all.len() as int) =~= all);
    lemma_scan(all, 0, written, levels);
    let repeated = |name: Seq<char>| repeats(written, name);
    assert(duplicate_from(all, all.len() as int, levels) is None);
    if duplicate_from(all, 0, levels) is None {
        assert forall|name: Seq<char>| !(#[trigger] repeats(written, name)) by {
            assert(!repeated(name));
        }
    }
}

/// Law: a text is read strictly where it is JSON and repeats no key, and then it
/// is read as what it is.
pub proof fn only_a_text_without_repeats_is_read(written: Written)
    requires
        well_written(written),
    ensures
        ({
            let bytes = bytes_of(written);
            match strict_document(bytes) {
                Ok(value) => json_document(bytes) == Ok::<JsonView, crate::codec::FaultView>(value)
                    && forall|name: Seq<char>| !(#[trigger] repeats(written, name)),
                Err(StrictErrorView::DuplicateKey(_)) => exists|name: Seq<char>| #[trigger]
                    repeats(written, name),
                Err(StrictErrorView::Syntax(text)) => json_document(bytes) matches Err(fault)
                    && fault.text == text,
            }
        }),
{
    a_key_is_repeated_where_a_table_has_it_twice(written);
    if let Some((name, _)) = duplicate_from(bytes_of(written), 0, Seq::empty()) {
        assert(repeats(written, name));
    }
}

/// Law: lines are counted from one by the newlines before a place, and columns
/// by the bytes since the last.
pub proof fn a_place_is_counted_by_lines(bytes: Seq<u8>, i: int)
    requires
        0 <= i < bytes.len(),
    ensures
        place(bytes, 0) == (1int, 0int),
        place(bytes, i + 1) == if bytes[i] == 10 {
            (place(bytes, i).0 + 1, 0int)
        } else {
            (place(bytes, i).0, place(bytes, i).1 + 1)
        },
{
}

proof fn lemma_blank(bytes: Seq<u8>, i: int)
    requires
        0 <= i <= bytes.len(),
    ensures
        i <= skip_blank(bytes, i) <= bytes.len(),
        forall|k: int| i <= k < skip_blank(bytes, i) ==> is_json_blank(#[trigger] bytes[k]),
        skip_blank(bytes, i) < bytes.len() ==> !is_json_blank(bytes[skip_blank(bytes, i)]),
    decreases bytes.len() - i,
{
    if i < bytes.len() && is_json_blank(bytes[i]) {
        lemma_blank(bytes, i + 1);
    }
}

/// Law: a repeated key is reported behind it and the blanks after it, and
/// behind a closing brace that follows them.
pub proof fn a_repeated_key_is_reported_behind_it(bytes: Seq<u8>, end: int)
    requires
        0 <= end <= bytes.len(),
    ensures
        ({
            let at = report_at(bytes, end);
            &&& end <= at <= bytes.len()
            &&& forall|k: int|
                end <= k < at - 1 ==> (#[trigger] bytes[k]) == 32 || bytes[k] == 9 || bytes[k] == 10
                    || bytes[k] == 13
            &&& at > end ==> bytes[at - 1] == 125 || is_json_blank(bytes[at - 1])
            &&& at < bytes.len() && (at == end || bytes[at - 1] != 125) ==> !is_json_blank(
                bytes[at],
            ) && bytes[at] != 125
        }),
{
    lemma_blank(bytes, end);
}

} // verus!
