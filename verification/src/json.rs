//! JSON values in the form the library works on, and the reading and writing
//! of their text.
use vstd::prelude::*;
use vstd::string::*;

use crate::text::str_eq;

verus! {

/// A JSON number. What is not an integer is kept as its shortest text.
#[derive(Debug, PartialEq, Eq)]
pub enum Number {
    Unsigned(u64),
    /// Always below zero.
    Negative(i64),
    Real(String),
}

/// A JSON value. An object keeps the order of its members.
#[derive(Debug, PartialEq, Eq)]
pub enum Json {
    Null,
    Bool(bool),
    Number(Number),
    Text(String),
    Array(Vec<Json>),
    Object(Vec<(String, Json)>),
}

pub enum NumberView {
    Unsigned(u64),
    Negative(i64),
    Real(Seq<char>),
}

pub enum JsonView {
    Null,
    Bool(bool),
    Number(NumberView),
    Text(Seq<char>),
    Array(Seq<JsonView>),
    Object(Seq<(Seq<char>, JsonView)>),
}

impl View for Number {
    type V = NumberView;

    open spec fn view(&self) -> NumberView {
        match *self {
            Number::Unsigned(n) => NumberView::Unsigned(n),
            Number::Negative(n) => NumberView::Negative(n),
            Number::Real(text) => NumberView::Real(text@),
        }
    }
}

impl View for Json {
    type V = JsonView;

    open spec fn view(&self) -> JsonView
        decreases self,
    {
        match *self {
            Json::Null => JsonView::Null,
            Json::Bool(b) => JsonView::Bool(b),
            Json::Number(n) => JsonView::Number(n@),
            Json::Text(s) => JsonView::Text(s@),
            Json::Array(items) => JsonView::Array(
                Seq::new(
                    items@.len(),
                    |i: int|
                        if 0 <= i < items@.len() {
                            items@[i].view()
                        } else {
                            JsonView::Null
                        },
                ),
            ),
            Json::Object(members) => JsonView::Object(
                Seq::new(
                    members@.len(),
                    |i: int|
                        if 0 <= i < members@.len() {
                            (members@[i].0@, members@[i].1.view())
                        } else {
                            (Seq::empty(), JsonView::Null)
                        },
                ),
            ),
        }
    }
}

/// The items of an array.
pub open spec fn items_view(items: Seq<Json>) -> Seq<JsonView> {
    Seq::new(items.len(), |i: int| items[i]@)
}

/// The members of an object.
pub open spec fn members_view(members: Seq<(String, Json)>) -> Seq<(Seq<char>, JsonView)> {
    Seq::new(members.len(), |i: int| (members[i].0@, members[i].1@))
}

pub proof fn lemma_array_view(items: Vec<Json>)
    ensures
        Json::Array(items)@ == JsonView::Array(items_view(items@)),
{
    reveal_with_fuel(<Json as View>::view, 2);
    let a = Json::Array(items)@;
    assert(a->Array_0 =~= items_view(items@));
}

pub proof fn lemma_object_view(members: Vec<(String, Json)>)
    ensures
        Json::Object(members)@ == JsonView::Object(members_view(members@)),
{
    reveal_with_fuel(<Json as View>::view, 2);
    let a = Json::Object(members)@;
    assert(a->Object_0 =~= members_view(members@));
}

impl Number {
    pub fn copy(&self) -> (out: Number)
        ensures
            out@ == self@,
    {
        match self {
            Number::Unsigned(n) => Number::Unsigned(*n),
            Number::Negative(n) => Number::Negative(*n),
            Number::Real(text) => Number::Real(text.clone()),
        }
    }
}

impl Json {
    /// A copy of the value.
    pub fn copy(&self) -> (out: Json)
        ensures
            out@ == self@,
        decreases self,
    {
        match self {
            Json::Null => Json::Null,
            Json::Bool(b) => Json::Bool(*b),
            Json::Number(n) => Json::Number(n.copy()),
            Json::Text(s) => Json::Text(s.clone()),
            Json::Array(items) => {
                let mut out: Vec<Json> = Vec::new();
                let mut i: usize = 0;
                while i < items.len()
                    invariant
                        i <= items@.len(),
                        out@.len() == i,
                        *self == Json::Array(*items),
                        forall|k: int| 0 <= k < i ==> (#[trigger] out@[k])@ == items@[k]@,
                    decreases items.len() - i,
                {
                    assert(decreases_to!(*self => self->Array_0));
                    assert(decreases_to!(*items => items@[i as int]));
                    out.push(items[i].copy());
                    i = i + 1;
                }
                proof {
                    lemma_array_view(out);
                    lemma_array_view(*items);
                    assert(items_view(out@) =~= items_view(items@));
                }
                Json::Array(out)
            },
            Json::Object(members) => {
                let mut out: Vec<(String, Json)> = Vec::new();
                let mut i: usize = 0;
                while i < members.len()
                    invariant
                        i <= members@.len(),
                        out@.len() == i,
                        *self == Json::Object(*members),
                        forall|k: int|
                            0 <= k < i ==> (#[trigger] out@[k]).0@ == members@[k].0@ && out@[k].1@
                                == members@[k].1@,
                    decreases members.len() - i,
                {
                    let member = &members[i];
                    assert(decreases_to!(*self => self->Object_0));
                    assert(decreases_to!(*members => members@[i as int]));
                    assert(decreases_to!(members@[i as int] => member.1));
                    out.push((member.0.clone(), member.1.copy()));
                    i = i + 1;
                }
                proof {
                    lemma_object_view(out);
                    lemma_object_view(*members);
                    assert(members_view(out@) =~= members_view(members@));
                }
                Json::Object(out)
            },
        }
    }
}

// ---------------------------------------------------------------------------
// Access.

/// The position of the first member with a name among `members[from..]`, or
/// the number of members.
pub open spec fn member_index(
    members: Seq<(Seq<char>, JsonView)>,
    key: Seq<char>,
    from: int,
) -> int
    decreases members.len() - from,
{
    if from < 0 || from >= members.len() || members[from].0 == key {
        from
    } else {
        member_index(members, key, from + 1)
    }
}

pub open spec fn has_member(members: Seq<(Seq<char>, JsonView)>, key: Seq<char>) -> bool {
    member_index(members, key, 0) < members.len()
}

/// The value of a member.
pub open spec fn member_of(members: Seq<(Seq<char>, JsonView)>, key: Seq<char>) -> Option<
    JsonView,
> {
    if has_member(members, key) {
        Some(members[member_index(members, key, 0)].1)
    } else {
        None
    }
}

/// The member of an object; a value of another kind has none.
pub open spec fn json_get(value: JsonView, key: Seq<char>) -> Option<JsonView> {
    match value {
        JsonView::Object(members) => member_of(members, key),
        _ => None,
    }
}

/// The text that a value is.
pub open spec fn json_text(value: JsonView) -> Option<Seq<char>> {
    match value {
        JsonView::Text(text) => Some(text),
        _ => None,
    }
}

/// The text of a member.
pub open spec fn text_member(value: JsonView, key: Seq<char>) -> Option<Seq<char>> {
    match json_get(value, key) {
        Some(JsonView::Text(text)) => Some(text),
        _ => None,
    }
}

/// A number as a signed 64-bit integer, where it is one.
pub open spec fn json_i64(value: JsonView) -> Option<i64> {
    match value {
        JsonView::Number(NumberView::Unsigned(n)) => if n <= i64::MAX {
            Some(n as i64)
        } else {
            None
        },
        JsonView::Number(NumberView::Negative(n)) => Some(n),
        _ => None,
    }
}

/// A number as an unsigned 64-bit integer, where it is one.
pub open spec fn json_u64(value: JsonView) -> Option<u64> {
    match value {
        JsonView::Number(NumberView::Unsigned(n)) => Some(n),
        _ => None,
    }
}

/// The members with one set: in its place where it was, else last.
pub open spec fn with_member(
    members: Seq<(Seq<char>, JsonView)>,
    key: Seq<char>,
    value: JsonView,
) -> Seq<(Seq<char>, JsonView)> {
    if has_member(members, key) {
        members.update(member_index(members, key, 0), (key, value))
    } else {
        members.push((key, value))
    }
}

/// The members without one.
pub open spec fn without_member(members: Seq<(Seq<char>, JsonView)>, key: Seq<char>) -> Seq<
    (Seq<char>, JsonView),
> {
    if has_member(members, key) {
        members.remove(member_index(members, key, 0))
    } else {
        members
    }
}

pub proof fn lemma_member_index(
    members: Seq<(Seq<char>, JsonView)>,
    key: Seq<char>,
    from: int,
)
    requires
        0 <= from <= members.len(),
    ensures
        from <= member_index(members, key, from) <= members.len(),
        member_index(members, key, from) < members.len() ==> members[member_index(
            members,
            key,
            from,
        )].0 == key,
        forall|i: int|
            from <= i < member_index(members, key, from) ==> (#[trigger] members[i]).0 != key,
    decreases members.len() - from,
{
    if from < members.len() && members[from].0 != key {
        lemma_member_index(members, key, from + 1);
    }
}

/// A member stands where its name first does.
pub proof fn lemma_first_member(members: Seq<(Seq<char>, JsonView)>, key: Seq<char>, i: int)
    requires
        0 <= i < members.len(),
        members[i].0 == key,
        forall|k: int| 0 <= k < i ==> (#[trigger] members[k]).0 != key,
    ensures
        member_index(members, key, 0) == i,
        has_member(members, key),
        member_of(members, key) == Some(members[i].1),
{
    lemma_member_index(members, key, 0);
    let at = member_index(members, key, 0);
    if at < i {
        assert(members[at].0 != key);
    }
}

/// A name that stands nowhere has no member.
pub proof fn lemma_no_member(members: Seq<(Seq<char>, JsonView)>, key: Seq<char>)
    requires
        forall|k: int| 0 <= k < members.len() ==> (#[trigger] members[k]).0 != key,
    ensures
        !has_member(members, key),
        member_of(members, key) is None,
{
    lemma_member_index(members, key, 0);
}

/// Setting a member changes that member alone.
pub proof fn lemma_with_member(
    members: Seq<(Seq<char>, JsonView)>,
    key: Seq<char>,
    value: JsonView,
    other: Seq<char>,
)
    ensures
        member_of(with_member(members, key, value), other) == (if other == key {
            Some(value)
        } else {
            member_of(members, other)
        }),
{
    let after = with_member(members, key, value);
    lemma_member_index(members, key, 0);
    lemma_member_index(members, other, 0);
    let at = member_index(members, key, 0);
    let seen = member_index(members, other, 0);
    if other == key {
        lemma_first_member(after, key, at);
    } else if seen < members.len() {
        assert(after[seen] == members[seen]);
        assert forall|k: int| 0 <= k < seen implies (#[trigger] after[k]).0 != other by {
            assert(members[k].0 != other);
        }
        lemma_first_member(after, other, seen);
    } else {
        assert forall|k: int| 0 <= k < after.len() implies (#[trigger] after[k]).0 != other by {
            if k < members.len() {
                assert(members[k].0 != other);
            }
        }
        lemma_no_member(after, other);
    }
}

/// No name stands twice.
pub open spec fn distinct_names(members: Seq<(Seq<char>, JsonView)>) -> bool {
    forall|i: int, j: int|
        0 <= i < j < members.len() ==> (#[trigger] members[i]).0 != (#[trigger] members[j]).0
}

/// Setting a member repeats no name.
pub proof fn lemma_with_member_distinct(
    members: Seq<(Seq<char>, JsonView)>,
    key: Seq<char>,
    value: JsonView,
)
    requires
        distinct_names(members),
    ensures
        distinct_names(with_member(members, key, value)),
{
    let after = with_member(members, key, value);
    lemma_member_index(members, key, 0);
    let at = member_index(members, key, 0);
    assert forall|i: int, j: int| 0 <= i < j < after.len() implies (#[trigger] after[i]).0 != (
    #[trigger] after[j]).0 by {
        if j < members.len() {
            assert(after[i].0 == members[i].0 && after[j].0 == members[j].0);
        } else {
            assert(members[i].0 != key);
        }
    }
}

/// Taking a member out takes that member alone.
pub proof fn lemma_without_member(
    members: Seq<(Seq<char>, JsonView)>,
    key: Seq<char>,
    other: Seq<char>,
)
    requires
        distinct_names(members),
    ensures
        member_of(without_member(members, key), other) == (if other == key {
            None
        } else {
            member_of(members, other)
        }),
{
    let after = without_member(members, key);
    lemma_member_index(members, key, 0);
    lemma_member_index(members, other, 0);
    let at = member_index(members, key, 0);
    let seen = member_index(members, other, 0);
    if at < members.len() {
        if other == key || seen == members.len() {
            assert forall|k: int| 0 <= k < after.len() implies (#[trigger] after[k]).0 != other by {
                if k < at {
                    assert(members[k].0 != other);
                } else {
                    assert(after[k] == members[k + 1]);
                    if other == key {
                        assert(members[at].0 != members[k + 1].0);
                    }
                }
            }
            lemma_no_member(after, other);
        } else {
            let now = if seen < at {
                seen
            } else {
                seen - 1
            };
            assert forall|k: int| 0 <= k < now implies (#[trigger] after[k]).0 != other by {
                if k < at {
                    assert(members[k].0 != other);
                } else {
                    assert(after[k] == members[k + 1]);
                }
            }
            assert(after[now] == members[seen]);
            lemma_first_member(after, other, now);
        }
    }
}

/// Law: a member is read where its name stands, whatever stands beside it; a
/// name that stands nowhere reads as nothing. Where no name stands twice, the
/// order of the members does not matter.
pub proof fn a_member_is_read_by_its_name(
    members: Seq<(Seq<char>, JsonView)>,
    key: Seq<char>,
    i: int,
)
    requires
        distinct_names(members),
    ensures
        0 <= i < members.len() && members[i].0 == key ==> json_get(JsonView::Object(members), key)
            == Some(members[i].1),
        (forall|k: int| 0 <= k < members.len() ==> (#[trigger] members[k]).0 != key) ==> json_get(
            JsonView::Object(members),
            key,
        ) is None,
{
    if 0 <= i < members.len() && members[i].0 == key {
        assert forall|k: int| 0 <= k < i implies (#[trigger] members[k]).0 != key by {
            assert(members[k].0 != members[i].0);
        }
        lemma_first_member(members, key, i);
    }
    if forall|k: int| 0 <= k < members.len() ==> (#[trigger] members[k]).0 != key {
        lemma_no_member(members, key);
    }
}

/// Finds a member by its name.
pub fn find_member(members: &Vec<(String, Json)>, key: &str) -> (found: Option<usize>)
    ensures
        match found {
            Some(i) => i < members@.len() && member_index(members_view(members@), key@, 0) == i,
            None => !has_member(members_view(members@), key@),
        },
{
    let ghost all = members_view(members@);
    let mut i: usize = 0;
    while i < members.len()
        invariant
            i <= members@.len(),
            all == members_view(members@),
            member_index(all, key@, i as int) == member_index(all, key@, 0),
        decreases members.len() - i,
    {
        assert(all[i as int].0 == members@[i as int].0@);
        if str_eq(members[i].0.as_str(), key) {
            return Some(i);
        }
        i = i + 1;
    }
    None
}

/// Sets a member: in its place where it was, else last.
pub fn put(members: &mut Vec<(String, Json)>, key: &str, value: Json)
    ensures
        members_view(final(members)@) == with_member(members_view(old(members)@), key@, value@),
{
    let ghost before = members_view(members@);
    let ghost view = value@;
    proof {
        lemma_member_index(before, key@, 0);
    }
    match find_member(members, key) {
        Some(i) => {
            members.set(i, (key.to_owned(), value));
        },
        None => {
            members.push((key.to_owned(), value));
        },
    }
    assert(members_view(members@) =~= with_member(before, key@, view));
}

/// Takes a member out.
pub fn take_out(members: &mut Vec<(String, Json)>, key: &str)
    ensures
        members_view(final(members)@) == without_member(members_view(old(members)@), key@),
{
    let ghost before = members_view(members@);
    proof {
        lemma_member_index(before, key@, 0);
    }
    match find_member(members, key) {
        Some(i) => {
            members.remove(i);
        },
        None => {},
    }
    assert(members_view(members@) =~= without_member(before, key@));
}

/// A copy of an object's members.
pub fn copy_members(members: &Vec<(String, Json)>) -> (out: Vec<(String, Json)>)
    ensures
        members_view(out@) == members_view(members@),
{
    let mut out: Vec<(String, Json)> = Vec::new();
    let mut i: usize = 0;
    while i < members.len()
        invariant
            i <= members@.len(),
            out@.len() == i,
            forall|k: int|
                0 <= k < i ==> (#[trigger] out@[k]).0@ == members@[k].0@ && out@[k].1@
                    == members@[k].1@,
        decreases members.len() - i,
    {
        let member = &members[i];
        out.push((member.0.clone(), member.1.copy()));
        i = i + 1;
    }
    assert(members_view(out@) =~= members_view(members@));
    out
}

/// The view of an optional value.
pub open spec fn option_view(value: Option<&Json>) -> Option<JsonView> {
    match value {
        Some(json) => Some(json@),
        None => None,
    }
}

/// The view of an optional text.
pub open spec fn option_text(text: Option<&str>) -> Option<Seq<char>> {
    match text {
        Some(s) => Some(s@),
        None => None,
    }
}

/// The member of an object's members.
pub fn member<'a>(members: &'a Vec<(String, Json)>, key: &str) -> (value: Option<&'a Json>)
    ensures
        option_view(value) == member_of(members_view(members@), key@),
{
    match find_member(members, key) {
        Some(i) => Some(&members[i].1),
        None => None,
    }
}

impl Json {
    /// The member of an object; a value of another kind has none.
    pub fn get(&self, key: &str) -> (value: Option<&Json>)
        ensures
            option_view(value) == json_get(self@, key@),
    {
        match self {
            Json::Object(members) => {
                proof {
                    lemma_object_view(*members);
                }
                member(members, key)
            },
            _ => None,
        }
    }

    /// The text that the value is.
    pub fn as_text(&self) -> (text: Option<&str>)
        ensures
            option_text(text) == json_text(self@),
    {
        match self {
            Json::Text(s) => Some(s.as_str()),
            _ => None,
        }
    }

    /// The text of a member.
    pub fn text_of(&self, key: &str) -> (text: Option<&str>)
        ensures
            option_text(text) == text_member(self@, key@),
    {
        match self.get(key) {
            Some(value) => value.as_text(),
            None => None,
        }
    }

    pub fn as_i64(&self) -> (value: Option<i64>)
        ensures
            value == json_i64(self@),
    {
        match self {
            Json::Number(Number::Unsigned(n)) => {
                if *n <= i64::MAX as u64 {
                    Some(*n as i64)
                } else {
                    None
                }
            },
            Json::Number(Number::Negative(n)) => Some(*n),
            _ => None,
        }
    }

    pub fn as_u64(&self) -> (value: Option<u64>)
        ensures
            value == json_u64(self@),
    {
        match self {
            Json::Number(Number::Unsigned(n)) => Some(*n),
            _ => None,
        }
    }

    pub fn is_null(&self) -> (yes: bool)
        ensures
            yes == (self@ is Null),
    {
        matches!(self, Json::Null)
    }

    /// A text value.
    pub fn text(s: &str) -> (value: Json)
        ensures
            value@ == JsonView::Text(s@),
    {
        Json::Text(s.to_owned())
    }
}

/// Law: a number is read as an integer of a size exactly where it is one that
/// the size holds, and a text exactly where there is one.
pub proof fn a_value_is_read_as_what_it_is(value: JsonView, key: Seq<char>)
    ensures
        match value {
            JsonView::Number(NumberView::Unsigned(n)) => json_u64(value) == Some(n) && (
            json_i64(value) matches Some(i) ==> i == n) && (json_i64(value) is Some <==> n
                <= 0x7fff_ffff_ffff_ffff),
            JsonView::Number(NumberView::Negative(n)) => json_u64(value) is None && json_i64(value)
                == Some(n),
            _ => json_u64(value) is None && json_i64(value) is None,
        },
        json_text(value) is Some <==> value is Text,
        json_text(value) matches Some(text) ==> value == JsonView::Text(text),
        text_member(value, key) == (match json_get(value, key) {
            Some(member) => json_text(member),
            None => None,
        }),
{
}

} // verus!
