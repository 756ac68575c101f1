//! Reading and writing JSON text, and strict reading, which refuses a
//! duplicate key at any depth.
use vstd::prelude::*;
use vstd::string::*;

use serde_json::Value;

use crate::json::{Json, JsonView, Number};
use crate::tables::views;
use crate::text::{decimal_text, push_decimal, str_eq};

verus! {

/// Trusted: the value type of `serde_json`. Only the conversions below look
/// inside it.
#[verifier::external_type_specification]
#[verifier::external_body]
pub struct ExJsonValue(serde_json::Value);

/// Why and where a text is not JSON.
#[derive(Debug)]
pub struct JsonFault {
    pub line: usize,
    pub column: usize,
    pub text: String,
}

pub struct FaultView {
    pub line: usize,
    pub column: usize,
    pub text: Seq<char>,
}

/// The outcome of reading a text, with everything as it is seen.
pub open spec fn document_view(result: Result<Json, JsonFault>) -> Result<JsonView, FaultView> {
    match result {
        Ok(value) => Ok(value@),
        Err(fault) => Err(
            FaultView { line: fault.line, column: fault.column, text: fault.text@ },
        ),
    }
}

/// What `serde_json::from_slice` reads from a text: the value, where a
/// duplicate key's last value stands in the first one's place, or the error
/// with its position and message. No key is special: the library is built
/// without the `raw_value` and `arbitrary_precision` features of `serde_json`,
/// under which some are.
pub uninterp spec fn json_document(bytes: Seq<u8>) -> Result<JsonView, FaultView>;

/// The text that `serde_json::to_vec` writes for a value.
pub uninterp spec fn json_bytes(value: JsonView) -> Seq<u8>;

/// Trusted: changes the type of a `serde_json::Value`, variant for variant. A
/// number is unsigned or negative where it is an integer, and else its text.
#[verifier::external_body]
fn from_value(value: Value) -> (json: Json) {
    match value {
        Value::Null => Json::Null,
        Value::Bool(b) => Json::Bool(b),
        Value::Number(n) => Json::Number(match (n.as_u64(), n.as_i64()) {
            (Some(u), _) => Number::Unsigned(u),
            (None, Some(i)) => Number::Negative(i),
            (None, None) => Number::Real(n.to_string()),
        }),
        Value::String(s) => Json::Text(s),
        Value::Array(a) => Json::Array(a.into_iter().map(from_value).collect()),
        Value::Object(o) => Json::Object(
            o.into_iter().map(|(k, v)| (k, from_value(v))).collect()),
    }
}

/// Trusted: changes the type back, variant for variant. The text of a number
/// becomes the number it is the shortest text of.
#[verifier::external_body]
fn to_value(json: &Json) -> (value: Value) {
    match json {
        Json::Null => Value::Null,
        Json::Bool(b) => Value::Bool(*b),
        Json::Number(Number::Unsigned(n)) => Value::from(*n),
        Json::Number(Number::Negative(n)) => Value::from(*n),
        Json::Number(Number::Real(text)) => text.parse().ok()
            .and_then(serde_json::Number::from_f64)
            .map_or(Value::Null, Value::Number),
        Json::Text(s) => Value::String(s.clone()),
        Json::Array(items) => Value::Array(items.iter().map(to_value).collect()),
        Json::Object(members) => Value::Object(
            members.iter().map(|m| (m.0.clone(), to_value(&m.1))).collect()),
    }
}

/// Trusted: `serde_json::from_slice` reads a JSON text. What it reads depends
/// on the bytes alone.
#[verifier::external_body]
pub(crate) fn read_json(bytes: &[u8]) -> (result: Result<Json, JsonFault>)
    ensures
        document_view(result) == json_document(bytes@),
{
    match serde_json::from_slice(bytes) {
        Ok(value) => Ok(from_value(value)),
        Err(error) => Err(JsonFault {
            line: error.line(),
            column: error.column(),
            text: error.to_string(),
        }),
    }
}

/// Trusted: `serde_json::to_vec` writes a value as compact JSON text. What it
/// writes depends on the value alone.
#[verifier::external_body]
pub(crate) fn write_json(json: &Json) -> (bytes: Vec<u8>)
    ensures
        bytes@ == json_bytes(json@),
{
    serde_json::to_vec(&to_value(json)).expect("a JSON value always serializes")
}

// ---------------------------------------------------------------------------
// Strict reading.

/// Where a scan is: in an object, with the keys seen so far and whether a key
/// comes next, or in an array.
pub enum LevelView {
    Object { keys: Seq<Seq<char>>, key_next: bool },
    Array,
}

/// One past the closing quote of the string whose content starts at `i`.
pub open spec fn string_end(bytes: Seq<u8>, i: int) -> Option<int>
    decreases bytes.len() - i,
{
    if i < 0 || i >= bytes.len() {
        None
    } else if bytes[i] == 34 {
        Some(i + 1)
    } else if bytes[i] == 92 {
        if i + 1 < bytes.len() {
            string_end(bytes, i + 2)
        } else {
            None
        }
    } else {
        string_end(bytes, i + 1)
    }
}

/// The levels after a structural character.
pub open spec fn after_mark(levels: Seq<LevelView>, mark: u8) -> Seq<LevelView> {
    if mark == 123 {
        levels.push(LevelView::Object { keys: Seq::empty(), key_next: true })
    } else if mark == 91 {
        levels.push(LevelView::Array)
    } else if (mark == 125 || mark == 93) && levels.len() > 0 {
        levels.drop_last()
    } else if mark == 44 && levels.len() > 0 {
        match levels.last() {
            LevelView::Object { keys, key_next } => levels.drop_last().push(
                LevelView::Object { keys, key_next: true },
            ),
            LevelView::Array => levels,
        }
    } else {
        levels
    }
}

/// The keys of the object whose key comes next, where one does.
pub open spec fn awaiting_key(levels: Seq<LevelView>) -> Option<Seq<Seq<char>>> {
    if levels.len() == 0 {
        None
    } else {
        match levels.last() {
            LevelView::Object { keys, key_next: true } => Some(keys),
            _ => None,
        }
    }
}

/// The first key at or after `i` that its object already has: the key, and
/// where it ends.
pub open spec fn duplicate_from(bytes: Seq<u8>, i: int, levels: Seq<LevelView>) -> Option<
    (Seq<char>, int),
>
    decreases bytes.len() - i,
{
    if i < 0 || i >= bytes.len() {
        None
    } else if bytes[i] == 34 {
        match string_end(bytes, i + 1) {
            None => None,
            Some(j) => if j <= i || j > bytes.len() {
                None
            } else {
                match awaiting_key(levels) {
                    None => duplicate_from(bytes, j, levels),
                    Some(keys) => match json_document(bytes.subrange(i, j)) {
                        Ok(JsonView::Text(key)) => if keys.contains(key) {
                            Some((key, j))
                        } else {
                            duplicate_from(
                                bytes,
                                j,
                                levels.drop_last().push(
                                    LevelView::Object { keys: keys.push(key), key_next: false },
                                ),
                            )
                        },
                        _ => None,
                    },
                }
            },
        }
    } else {
        duplicate_from(bytes, i + 1, after_mark(levels, bytes[i]))
    }
}

/// Where the line that holds `i` starts.
pub open spec fn line_start(bytes: Seq<u8>, i: int) -> int
    decreases i,
{
    if i <= 0 || bytes[i - 1] == 10 {
        i
    } else {
        line_start(bytes, i - 1)
    }
}

/// How many newlines stand before `i`.
pub open spec fn newlines(bytes: Seq<u8>, i: int) -> nat
    decreases i,
{
    if i <= 0 {
        0
    } else {
        newlines(bytes, i - 1) + if bytes[i - 1] == 10 {
            1nat
        } else {
            0nat
        }
    }
}

/// The line and column of a position.
pub open spec fn place(bytes: Seq<u8>, i: int) -> (int, int) {
    (newlines(bytes, i) as int + 1, i - line_start(bytes, i))
}

pub open spec fn not_after(a: (int, int), b: (int, int)) -> bool {
    a.0 < b.0 || (a.0 == b.0 && a.1 <= b.1)
}

pub open spec fn is_json_blank(b: u8) -> bool {
    b == 32 || b == 10 || b == 9 || b == 13
}

/// The first position at or after `i` that is not blank.
pub open spec fn skip_blank(bytes: Seq<u8>, i: int) -> int
    decreases bytes.len() - i,
{
    if 0 <= i < bytes.len() && is_json_blank(bytes[i]) {
        skip_blank(bytes, i + 1)
    } else {
        i
    }
}

/// Where a duplicate key that ends at `i` is reported: past the blanks after
/// it, and past a closing brace there.
pub open spec fn report_at(bytes: Seq<u8>, i: int) -> int {
    let j = skip_blank(bytes, i);
    if j < bytes.len() && bytes[j] == 125 {
        j + 1
    } else {
        j
    }
}

pub open spec fn duplicate_text(bytes: Seq<u8>, key: Seq<char>, end: int) -> Seq<char> {
    let at = place(bytes, report_at(bytes, end));
    "duplicate key `"@ + key + "` at line "@ + decimal_text(at.0 as nat) + " column "@
        + decimal_text(at.1 as nat)
}

/// Why a text is not acceptable.
#[derive(Debug)]
pub enum StrictError {
    DuplicateKey(String),
    Syntax(String),
}

pub enum StrictErrorView {
    DuplicateKey(Seq<char>),
    Syntax(Seq<char>),
}

pub open spec fn strict_view(result: Result<Json, StrictError>) -> Result<
    JsonView,
    StrictErrorView,
> {
    match result {
        Ok(value) => Ok(value@),
        Err(StrictError::DuplicateKey(text)) => Err(StrictErrorView::DuplicateKey(text@)),
        Err(StrictError::Syntax(text)) => Err(StrictErrorView::Syntax(text@)),
    }
}

/// A text is read strictly: a key that its object already has is refused, at
/// any depth, unless the text stops being JSON before it.
pub open spec fn strict_document(bytes: Seq<u8>) -> Result<JsonView, StrictErrorView> {
    match (json_document(bytes), duplicate_from(bytes, 0, Seq::empty())) {
        (Ok(_), Some((key, end))) => Err(
            StrictErrorView::DuplicateKey(duplicate_text(bytes, key, end)),
        ),
        (Ok(value), None) => Ok(value),
        (Err(fault), Some((key, end))) => if not_after(
            place(bytes, end),
            (fault.line as int, fault.column as int),
        ) {
            Err(StrictErrorView::DuplicateKey(duplicate_text(bytes, key, end)))
        } else {
            Err(StrictErrorView::Syntax(fault.text))
        },
        (Err(fault), None) => Err(StrictErrorView::Syntax(fault.text)),
    }
}

/// Where a scan is.
enum Level {
    Object { keys: Vec<String>, key_next: bool },
    Array,
}

impl View for Level {
    type V = LevelView;

    closed spec fn view(&self) -> LevelView {
        match *self {
            Level::Object { keys, key_next } => LevelView::Object { keys: views(keys@), key_next },
            Level::Array => LevelView::Array,
        }
    }
}

fn find_string_end(bytes: &[u8], from: usize) -> (end: Option<usize>)
    requires
        from <= bytes@.len(),
    ensures
        match string_end(bytes@, from as int) {
            Some(e) => end matches Some(n) && n == e && from < e <= bytes@.len(),
            None => end is None,
        },
{
    let mut i: usize = from;
    while i < bytes.len()
        invariant
            from <= i <= bytes@.len(),
            string_end(bytes@, i as int) == string_end(bytes@, from as int),
        decreases bytes.len() - i,
    {
        if bytes[i] == 34 {
            return Some(i + 1);
        }
        if bytes[i] == 92 {
            if bytes.len() - i < 2 {
                return None;
            }
            i = i + 2;
        } else {
            i = i + 1;
        }
    }
    None
}

fn holds_key(keys: &Vec<String>, key: &String) -> (found: bool)
    ensures
        found == views(keys@).contains(key@),
{
    let mut i: usize = 0;
    while i < keys.len()
        invariant
            i <= keys@.len(),
            forall|j: int| 0 <= j < i ==> views(keys@)[j] != key@,
        decreases keys.len() - i,
    {
        if str_eq(keys[i].as_str(), key.as_str()) {
            assert(views(keys@)[i as int] == key@);
            return true;
        }
        i = i + 1;
    }
    false
}

fn mark_levels(levels: &mut Vec<Level>, mark: u8)
    ensures
        views(final(levels)@) == after_mark(views(old(levels)@), mark),
{
    let ghost before = views(levels@);
    if mark == 123 {
        let level = Level::Object { keys: Vec::new(), key_next: true };
        assert(level@->keys =~= Seq::<Seq<char>>::empty());
        levels.push(level);
        assert(views(levels@) =~= after_mark(before, mark));
    } else if mark == 91 {
        levels.push(Level::Array);
        assert(views(levels@) =~= after_mark(before, mark));
    } else if mark == 125 || mark == 93 {
        let _ = levels.pop();
        assert(views(levels@) =~= after_mark(before, mark));
    } else if mark == 44 {
        match levels.pop() {
            Some(level) => {
                assert(before.last() == level@);
                let next = match level {
                    Level::Object { keys, key_next: _ } => Level::Object { keys, key_next: true },
                    Level::Array => Level::Array,
                };
                levels.push(next);
            },
            None => {},
        }
        assert(views(levels@) =~= after_mark(before, mark));
    }
}

/// Finds the first key that its object already has.
fn find_duplicate(bytes: &[u8]) -> (found: Option<(String, usize)>)
    ensures
        match duplicate_from(bytes@, 0, Seq::empty()) {
            Some((key, end)) => found matches Some((k, e)) && k@ == key && e == end && end
                <= bytes@.len(),
            None => found is None,
        },
{
    let mut levels: Vec<Level> = Vec::new();
    assert(views(levels@) =~= Seq::<LevelView>::empty());
    let mut i: usize = 0;
    while i < bytes.len()
        invariant
            i <= bytes@.len(),
            duplicate_from(bytes@, i as int, views(levels@)) == duplicate_from(
                bytes@,
                0,
                Seq::empty(),
            ),
        decreases bytes.len() - i,
    {
        let ghost before = views(levels@);
        if bytes[i] != 34 {
            mark_levels(&mut levels, bytes[i]);
            i = i + 1;
        } else {
            let end: usize = match find_string_end(bytes, i + 1) {
                None => return None,
                Some(end) => end,
            };
            match levels.pop() {
                None => {
                    assert(views(levels@) =~= before);
                },
                Some(level) => {
                    assert(before.last() == level@);
                    assert(views(levels@) =~= before.drop_last());
                    match level {
                        Level::Object { keys, key_next: true } => {
                            let token = &bytes[i..end];
                            let key = match read_json(token) {
                                Ok(Json::Text(key)) => key,
                                _ => return None,
                            };
                            if holds_key(&keys, &key) {
                                return Some((key, end));
                            }
                            let ghost seen = views(keys@);
                            let ghost name = key@;
                            let mut more = keys;
                            more.push(key);
                            assert(views(more@) =~= seen.push(name));
                            levels.push(Level::Object { keys: more, key_next: false });
                            assert(views(levels@) =~= before.drop_last().push(
                                LevelView::Object { keys: seen.push(name), key_next: false },
                            ));
                        },
                        other => {
                            levels.push(other);
                            assert(views(levels@) =~= before);
                        },
                    }
                },
            }
            i = end;
        }
    }
    None
}

/// The line and column of a position.
fn locate(bytes: &[u8], at: usize) -> (result: (u128, u128))
    requires
        at <= bytes@.len(),
    ensures
        (result.0 as int, result.1 as int) == place(bytes@, at as int),
{
    let mut line: u128 = 0;
    let mut start: usize = 0;
    let mut i: usize = 0;
    while i < at
        invariant
            i <= at <= bytes@.len(),
            line <= i,
            start <= i,
            line == newlines(bytes@, i as int),
            start == line_start(bytes@, i as int),
        decreases at - i,
    {
        if bytes[i] == 10 {
            line = line + 1;
            start = i + 1;
        }
        i = i + 1;
    }
    (line + 1, (at - start) as u128)
}

/// Reads a JSON text, refusing a duplicate key at any depth.
pub fn read_strict(bytes: &[u8]) -> (result: Result<Json, StrictError>)
    ensures
        strict_view(result) == strict_document(bytes@),
{
    let parsed = read_json(bytes);
    match find_duplicate(bytes) {
        None => {},
        Some((key, end)) => {
            let refused = match &parsed {
                Ok(_) => true,
                Err(fault) => {
                    let (line, column) = locate(bytes, end);
                    line < fault.line as u128 || (line == fault.line as u128 && column
                        <= fault.column as u128)
                },
            };
            if refused {
                let mut at: usize = end;
                while at < bytes.len() && (bytes[at] == 32 || bytes[at] == 10 || bytes[at] == 9
                    || bytes[at] == 13)
                    invariant
                        end <= at <= bytes@.len(),
                        skip_blank(bytes@, at as int) == skip_blank(bytes@, end as int),
                    decreases bytes.len() - at,
                {
                    at = at + 1;
                }
                if at < bytes.len() && bytes[at] == 125 {
                    at = at + 1;
                }
                let (line, column) = locate(bytes, at);
                let mut text = String::from_str("duplicate key `");
                text.push_str(key.as_str());
                text.push_str("` at line ");
                push_decimal(&mut text, line);
                text.push_str(" column ");
                push_decimal(&mut text, column);
                return Err(StrictError::DuplicateKey(text));
            }
        },
    }
    match parsed {
        Ok(value) => Ok(value),
        Err(fault) => Err(StrictError::Syntax(fault.text)),
    }
}

impl Json {
    /// Reads a JSON text. Where a key is given twice its last value stands.
    pub fn parse(bytes: &[u8]) -> (result: Result<Json, JsonFault>)
        ensures
            document_view(result) == json_document(bytes@),
    {
        read_json(bytes)
    }

    /// The value as compact JSON text.
    pub fn to_bytes(&self) -> (bytes: Vec<u8>)
        ensures
            bytes@ == json_bytes(self@),
    {
        write_json(self)
    }
}

} // verus!
