//! What normalizing keeps: no stripped field survives, field order is kept,
//! and normalizing twice changes nothing.
use vstd::prelude::*;

use crate::allowlist::{
    checked, checked_element, checked_fields, checked_items, checked_shape, kind_of, shape_of,
    Element,
};
use crate::json::{has_member, lemma_member_index, member_index, member_of, JsonView};
use crate::rejection::{joined_path, RejectionView};
use crate::shapes::{required_of, rule_of, Rule, Shape};

verus! {

/// The names of an object's members, in order.
pub open spec fn names_of(members: Seq<(Seq<char>, JsonView)>) -> Seq<Seq<char>> {
    members.map_values(|m: (Seq<char>, JsonView)| m.0)
}

/// Whether a field of a shape survives normalizing.
pub open spec fn survives(shape: Shape, key: Seq<char>) -> bool {
    rule_of(shape, key) is Some && !(rule_of(shape, key)->0 is Strip)
}

/// Law: an object that passes keeps exactly the fields its shape keeps, in
/// the order they came.
pub proof fn field_order_is_kept(
    shape: Shape,
    members: Seq<(Seq<char>, JsonView)>,
    path: Seq<char>,
)
    requires
        checked_fields(shape, members, path) is Ok,
    ensures
        names_of(checked_fields(shape, members, path)->Ok_0) == names_of(members).filter(
            |key: Seq<char>| survives(shape, key),
        ),
    decreases members.len(),
{
    reveal(Seq::filter);
    let keeps = |key: Seq<char>| survives(shape, key);
    let kept = checked_fields(shape, members, path)->Ok_0;
    if members.len() == 0 {
        assert(names_of(members) =~= Seq::empty());
        assert(names_of(kept) =~= Seq::empty());
    } else {
        let front = members.drop_last();
        field_order_is_kept(shape, front, path);
        let before = checked_fields(shape, front, path)->Ok_0;
        assert(names_of(members).drop_last() =~= names_of(front));
        assert(names_of(members).last() == members.last().0);
        if survives(shape, members.last().0) {
            assert(names_of(kept) =~= names_of(before).push(members.last().0));
        } else {
            assert(kept == before);
        }
    }
}

pub proof fn lemma_kept_survive(shape: Shape, members: Seq<(Seq<char>, JsonView)>, path: Seq<char>)
    requires
        checked_fields(shape, members, path) is Ok,
    ensures
        forall|i: int|
            0 <= i < checked_fields(shape, members, path)->Ok_0.len() ==> survives(
                shape,
                (#[trigger] checked_fields(shape, members, path)->Ok_0[i]).0,
            ),
    decreases members.len(),
{
    if members.len() > 0 {
        lemma_kept_survive(shape, members.drop_last(), path);
    }
}

/// Where a name stands once another member follows.
pub proof fn lemma_member_push(
    members: Seq<(Seq<char>, JsonView)>,
    last: (Seq<char>, JsonView),
    key: Seq<char>,
    from: int,
)
    requires
        0 <= from <= members.len(),
    ensures
        member_index(members, key, from) < members.len() ==> member_index(
            members.push(last),
            key,
            from,
        ) == member_index(members, key, from),
        member_index(members, key, from) == members.len() ==> member_index(
            members.push(last),
            key,
            from,
        ) == (if last.0 == key {
            members.len() as int
        } else {
            members.len() + 1int
        }),
    decreases members.len() - from,
{
    let longer = members.push(last);
    if from < members.len() {
        assert(longer[from] == members[from]);
        if members[from].0 != key {
            lemma_member_push(members, last, key, from + 1);
        }
    } else {
        assert(longer[from] == last);
        if last.0 != key {
            assert(member_index(longer, key, from + 1) == from + 1);
        }
    }
}

/// The member of a name once another member follows.
pub proof fn lemma_member_of_push(
    members: Seq<(Seq<char>, JsonView)>,
    last: (Seq<char>, JsonView),
    key: Seq<char>,
)
    ensures
        member_of(members.push(last), key) == (if has_member(members, key) {
            member_of(members, key)
        } else if last.0 == key {
            Some(last.1)
        } else {
            None
        }),
        has_member(members.push(last), key) == (has_member(members, key) || last.0 == key),
{
    lemma_member_index(members, key, 0);
    lemma_member_push(members, last, key, 0);
}

/// A kept field holds the normalized form of what it held.
pub proof fn lemma_kept_member(
    shape: Shape,
    members: Seq<(Seq<char>, JsonView)>,
    path: Seq<char>,
    key: Seq<char>,
)
    requires
        checked_fields(shape, members, path) is Ok,
        survives(shape, key),
    ensures
        has_member(checked_fields(shape, members, path)->Ok_0, key) == has_member(members, key),
        has_member(members, key) ==> checked(
            rule_of(shape, key)->0,
            member_of(members, key)->0,
            joined_path(path, key),
        ) == Ok::<JsonView, RejectionView>(
            member_of(checked_fields(shape, members, path)->Ok_0, key)->0,
        ),
    decreases members.len(),
{
    let kept = checked_fields(shape, members, path)->Ok_0;
    if members.len() > 0 {
        let front = members.drop_last();
        let before = checked_fields(shape, front, path)->Ok_0;
        lemma_kept_member(shape, front, path, key);
        assert(members =~= front.push(members.last()));
        lemma_member_of_push(front, members.last(), key);
        if survives(shape, members.last().0) {
            lemma_member_of_push(before, kept.last(), key);
            assert(kept =~= before.push(kept.last()));
        }
    }
}

/// The names that normalizing may take out of an object: what refers to stored
/// items, and what a model's own output was annotated with.
pub open spec fn strippable(key: Seq<char>) -> bool {
    key == "id"@ || key == "status"@ || key == "annotations"@ || key == "logprobs"@
}

/// One value is another with nothing taken out of it but strippable fields of
/// its objects, at any depth: every text, number, truth value and null is the
/// same, every array has as many items, and every other field is there, in the
/// same order.
pub open spec fn pruned(before: JsonView, after: JsonView) -> bool
    decreases before, 1nat,
{
    match (before, after) {
        (JsonView::Array(a), JsonView::Array(b)) => items_pruned(a, b),
        (JsonView::Object(a), JsonView::Object(b)) => members_pruned(a, b),
        _ => before == after,
    }
}

pub open spec fn items_pruned(before: Seq<JsonView>, after: Seq<JsonView>) -> bool
    decreases before, 0nat,
{
    if before.len() == 0 {
        after.len() == 0
    } else {
        after.len() == before.len() && pruned(before.last(), after.last()) && items_pruned(
            before.drop_last(),
            after.drop_last(),
        )
    }
}

pub open spec fn members_pruned(
    before: Seq<(Seq<char>, JsonView)>,
    after: Seq<(Seq<char>, JsonView)>,
) -> bool
    decreases before, 0nat,
{
    if before.len() == 0 {
        after.len() == 0
    } else {
        let (key, value) = before.last();
        ||| (strippable(key) && members_pruned(before.drop_last(), after))
        ||| (after.len() > 0 && after.last().0 == key && pruned(value, after.last().1)
            && members_pruned(before.drop_last(), after.drop_last()))
    }
}

/// Nothing taken out leaves a value as it was.
proof fn lemma_pruned_same(value: JsonView)
    ensures
        pruned(value, value),
    decreases value, 1nat,
{
    match value {
        JsonView::Array(items) => lemma_items_same(items),
        JsonView::Object(members) => lemma_members_same(members),
        _ => {},
    }
}

proof fn lemma_items_same(items: Seq<JsonView>)
    ensures
        items_pruned(items, items),
    decreases items, 0nat,
{
    if items.len() > 0 {
        lemma_pruned_same(items.last());
        lemma_items_same(items.drop_last());
    }
}

proof fn lemma_members_same(members: Seq<(Seq<char>, JsonView)>)
    ensures
        members_pruned(members, members),
    decreases members, 0nat,
{
    if members.len() > 0 {
        lemma_pruned_same(members.last().1);
        lemma_members_same(members.drop_last());
    }
}

/// Law: normalizing a value takes nothing out of it but fields that refer to
/// stored items and annotations of a model's own output, and rewrites nothing.
pub proof fn normalizing_only_strips(rule: Rule, value: JsonView, path: Seq<char>)
    requires
        checked(rule, value, path) is Ok,
    ensures
        pruned(value, checked(rule, value, path)->Ok_0),
    decreases value, 2nat,
{
    lemma_pruned_same(value);
    match value {
        JsonView::Array(items) => {
            match rule {
                Rule::Input => lemma_items_stripped(Element::InputItem, items, path),
                Rule::MessageContent => lemma_items_stripped(Element::MessagePart, items, path),
                Rule::ToolOutput => lemma_items_stripped(Element::OutputPart, items, path),
                Rule::SummaryParts => lemma_items_stripped(Element::SummaryPart, items, path),
                Rule::ReasoningParts => lemma_items_stripped(Element::ReasoningPart, items, path),
                Rule::ToolList => lemma_items_stripped(Element::Tool, items, path),
                Rule::NamespaceMembers => lemma_items_stripped(
                    Element::NamespacedTool,
                    items,
                    path,
                ),
                Rule::IncludeList => lemma_items_stripped(Element::IncludeEntry, items, path),
                _ => {},
            }
        },
        JsonView::Object(members) => {
            match rule {
                Rule::CustomFormat => lemma_element_stripped(Element::CustomFormat, value, path),
                Rule::OutputFormat => lemma_element_stripped(Element::OutputFormat, value, path),
                Rule::ToolChoice => lemma_element_stripped(Element::NamedChoice, value, path),
                Rule::ObjectOf(shape) => lemma_fields_stripped(shape, members, path),
                _ => {},
            }
        },
        _ => {},
    }
}

proof fn lemma_element_stripped(element: Element, value: JsonView, path: Seq<char>)
    requires
        checked_element(element, value, path) is Ok,
    ensures
        pruned(value, checked_element(element, value, path)->Ok_0),
    decreases value, 1nat,
{
    if element is IncludeEntry {
        lemma_pruned_same(value);
    } else {
        let members = value->Object_0;
        assert(value == JsonView::Object(members));
        let kind = kind_of(element, members, path)->Ok_0;
        let shape = shape_of(element, kind, path)->Ok_0;
        lemma_fields_stripped(shape, members, path);
    }
}

proof fn lemma_items_stripped(element: Element, items: Seq<JsonView>, path: Seq<char>)
    requires
        checked_items(element, items, path) is Ok,
    ensures
        items_pruned(items, checked_items(element, items, path)->Ok_0),
    decreases items, 0nat,
{
    if items.len() > 0 {
        let done = checked_items(element, items, path)->Ok_0;
        lemma_items_stripped(element, items.drop_last(), path);
        lemma_items_twice(element, items, path);
        lemma_element_stripped(
            element,
            items.last(),
            crate::allowlist::index_path(path, (items.len() - 1) as nat),
        );
        let before = checked_items(element, items.drop_last(), path)->Ok_0;
        assert(done.drop_last() =~= before);
    }
}

proof fn lemma_fields_stripped(shape: Shape, members: Seq<(Seq<char>, JsonView)>, path: Seq<char>)
    requires
        checked_fields(shape, members, path) is Ok,
    ensures
        members_pruned(members, checked_fields(shape, members, path)->Ok_0),
    decreases members, 0nat,
{
    if members.len() > 0 {
        let front = members.drop_last();
        let (key, value) = members.last();
        lemma_fields_stripped(shape, front, path);
        let before = checked_fields(shape, front, path)->Ok_0;
        let kept = checked_fields(shape, members, path)->Ok_0;
        if survives(shape, key) {
            normalizing_only_strips(rule_of(shape, key)->0, value, joined_path(path, key));
            assert(kept.drop_last() =~= before);
        } else {
            assert(strippable(key));
        }
    }
}

/// Every shape chosen by a type keeps its `type` field as it is.
proof fn lemma_typed_shapes(element: Element, kind: Seq<char>, path: Seq<char>)
    ensures
        shape_of(element, kind, path) is Ok ==> rule_of(
            shape_of(element, kind, path)->Ok_0,
            "type"@,
        ) == Some(Rule::Text),
        rule_of(Shape::Message, "role"@) is Some,
        survives(Shape::Message, "role"@),
        required_of(Shape::Message)[0] == "role"@,
{
    reveal_strlit("type");
    reveal_strlit("role");
    reveal_strlit("id");
    reveal_strlit("status");
    assert("role"@[0] == 'r');
    assert("type"@[0] == 't');
    assert("id"@.len() == 2);
    assert("status"@.len() == 6);
}

/// Law: normalizing a value a second time changes nothing.
pub proof fn normalizing_twice_changes_nothing(rule: Rule, value: JsonView, path: Seq<char>)
    requires
        checked(rule, value, path) is Ok,
    ensures
        checked(rule, checked(rule, value, path)->Ok_0, path) == checked(rule, value, path),
    decreases value, 2nat,
{
    match value {
        JsonView::Array(items) => {
            match rule {
                Rule::Input => lemma_items_twice(Element::InputItem, items, path),
                Rule::MessageContent => lemma_items_twice(Element::MessagePart, items, path),
                Rule::ToolOutput => lemma_items_twice(Element::OutputPart, items, path),
                Rule::SummaryParts => lemma_items_twice(Element::SummaryPart, items, path),
                Rule::ReasoningParts => lemma_items_twice(Element::ReasoningPart, items, path),
                Rule::ToolList => lemma_items_twice(Element::Tool, items, path),
                Rule::NamespaceMembers => lemma_items_twice(Element::NamespacedTool, items, path),
                Rule::IncludeList => lemma_items_twice(Element::IncludeEntry, items, path),
                _ => {},
            }
        },
        JsonView::Object(members) => {
            match rule {
                Rule::CustomFormat => lemma_element_twice(Element::CustomFormat, value, path),
                Rule::OutputFormat => lemma_element_twice(Element::OutputFormat, value, path),
                Rule::ToolChoice => lemma_element_twice(Element::NamedChoice, value, path),
                Rule::ObjectOf(shape) => lemma_shape_twice(shape, members, path),
                _ => {},
            }
        },
        _ => {},
    }
}

proof fn lemma_element_twice(element: Element, value: JsonView, path: Seq<char>)
    requires
        checked_element(element, value, path) is Ok,
    ensures
        checked_element(element, checked_element(element, value, path)->Ok_0, path)
            == checked_element(element, value, path),
    decreases value, 1nat,
{
    if !(element is IncludeEntry) {
        let members = value->Object_0;
        let kind = kind_of(element, members, path)->Ok_0;
        let shape = shape_of(element, kind, path)->Ok_0;
        let kept = checked_shape(shape, members, path)->Ok_0;
        assert(value == JsonView::Object(members));
        lemma_shape_twice(shape, members, path);
        lemma_typed_shapes(element, kind, path);
        lemma_kept_member(shape, members, path, "type"@);
        if element is InputItem && !has_member(members, "type"@) {
            lemma_typed_shapes(element, "message"@, path);
            assert(shape == Shape::Message);
            lemma_kept_member(shape, members, path, "role"@);
        }
        assert(kind_of(element, kept, path) == kind_of(element, members, path));
    }
}

proof fn lemma_items_twice(element: Element, items: Seq<JsonView>, path: Seq<char>)
    requires
        checked_items(element, items, path) is Ok,
    ensures
        checked_items(element, items, path)->Ok_0.len() == items.len(),
        checked_items(element, checked_items(element, items, path)->Ok_0, path) == checked_items(
            element,
            items,
            path,
        ),
    decreases items, 0nat,
{
    let done = checked_items(element, items, path)->Ok_0;
    if items.len() > 0 {
        let front = items.drop_last();
        lemma_items_twice(element, front, path);
        let before = checked_items(element, front, path)->Ok_0;
        assert(done.drop_last() =~= before);
        lemma_element_twice(
            element,
            items.last(),
            crate::allowlist::index_path(path, (items.len() - 1) as nat),
        );
        assert(before.push(done.last()) =~= done);
    }
}

proof fn lemma_fields_twice(shape: Shape, members: Seq<(Seq<char>, JsonView)>, path: Seq<char>)
    requires
        checked_fields(shape, members, path) is Ok,
    ensures
        checked_fields(shape, checked_fields(shape, members, path)->Ok_0, path) == checked_fields(
            shape,
            members,
            path,
        ),
    decreases members, 0nat,
{
    let kept = checked_fields(shape, members, path)->Ok_0;
    if members.len() > 0 {
        let front = members.drop_last();
        lemma_fields_twice(shape, front, path);
        let before = checked_fields(shape, front, path)->Ok_0;
        let key = members.last().0;
        if survives(shape, key) {
            normalizing_twice_changes_nothing(
                rule_of(shape, key)->0,
                members.last().1,
                joined_path(path, key),
            );
            assert(kept.drop_last() =~= before);
            assert(before.push(kept.last()) =~= kept);
        }
    }
}

proof fn lemma_shape_twice(shape: Shape, members: Seq<(Seq<char>, JsonView)>, path: Seq<char>)
    requires
        checked_shape(shape, members, path) is Ok,
    ensures
        checked_shape(shape, checked_shape(shape, members, path)->Ok_0, path) == checked_shape(
            shape,
            members,
            path,
        ),
        checked_shape(shape, members, path) == checked_fields(shape, members, path),
    decreases members, 1nat,
{
    lemma_fields_twice(shape, members, path);
}

} // verus!
