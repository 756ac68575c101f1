//! Which requests are accepted: what each object of a request may hold, said of
//! the values themselves.
use vstd::prelude::*;

use crate::allowlist::{
    checked, checked_element, checked_fields, checked_items, checked_shape, first_missing,
    first_non_text, index_path, kind_of, parts_of, Element,
};
use crate::json::{has_member, lemma_member_index, member_index, member_of, JsonView, NumberView};
use crate::normal_form::{lemma_kept_member, survives};
use crate::rejection::{joined_path, RejectionView};
use crate::request_laws::{lemma_more_names, lemma_top_member};
use crate::request::{request_of, top_fields, top_outcome};
use crate::shapes::{required_of, rule_of, Rule, Shape};

verus! {

// ---------------------------------------------------------------------------
// Values.

pub open spec fn is_named(value: JsonView) -> bool {
    value matches JsonView::Text(text) && text.len() > 0
}

pub open spec fn is_among(value: JsonView, texts: Seq<Seq<char>>) -> bool {
    value matches JsonView::Text(text) && texts.contains(text)
}

pub open spec fn bool_or_null(value: JsonView) -> bool {
    value is Bool || value is Null
}

/// A list, every item of which is acceptable.
pub open spec fn each(value: JsonView, item: spec_fn(JsonView) -> bool) -> bool {
    value matches JsonView::Array(items) && forall|i: int|
        0 <= i < items.len() ==> item(#[trigger] items[i])
}

/// An object that has every field it needs, and no field but acceptable ones.
pub open spec fn holds(
    members: Seq<(Seq<char>, JsonView)>,
    needed: Seq<Seq<char>>,
    field: spec_fn(Seq<char>, JsonView) -> bool,
) -> bool {
    &&& forall|i: int|
        0 <= i < members.len() ==> field((#[trigger] members[i]).0, members[i].1)
    &&& forall|j: int| 0 <= j < needed.len() ==> has_member(members, #[trigger] needed[j])
}

/// What an object says it is.
pub open spec fn says(members: Seq<(Seq<char>, JsonView)>, kind: Seq<char>) -> bool {
    member_of(members, "type"@) == Some(JsonView::Text(kind))
}

// ---------------------------------------------------------------------------
// Content parts.

pub open spec fn text_field(key: Seq<char>, value: JsonView) -> bool {
    (key == "type"@ || key == "text"@) && value is Text
}

pub open spec fn output_text_field(key: Seq<char>, value: JsonView) -> bool {
    text_field(key, value) || key == "annotations"@ || key == "logprobs"@
}

pub open spec fn refusal_field(key: Seq<char>, value: JsonView) -> bool {
    (key == "type"@ || key == "refusal"@) && value is Text
}

/// An image is inline, never a reference to a remote one.
pub open spec fn image_field(key: Seq<char>, value: JsonView) -> bool {
    if key == "image_url"@ {
        value matches JsonView::Text(url) && "data:"@.is_prefix_of(url)
    } else if key == "detail"@ {
        is_among(value, seq!["auto"@, "low"@, "high"@, "original"@])
    } else {
        key == "type"@ && value is Text
    }
}

pub open spec fn tool_output_part(value: JsonView) -> bool {
    value matches JsonView::Object(members) && {
        ||| says(members, "input_text"@) && holds(
            members,
            seq!["text"@],
            |key: Seq<char>, value: JsonView| text_field(key, value),
        )
        ||| says(members, "input_image"@) && holds(
            members,
            seq!["image_url"@],
            |key: Seq<char>, value: JsonView| image_field(key, value),
        )
    }
}

pub open spec fn message_part(value: JsonView) -> bool {
    ||| tool_output_part(value)
    ||| value matches JsonView::Object(members) && says(members, "output_text"@) && holds(
        members,
        seq!["text"@],
        |key: Seq<char>, value: JsonView| output_text_field(key, value),
    )
    ||| value matches JsonView::Object(members) && says(members, "refusal"@) && holds(
        members,
        seq!["refusal"@],
        |key: Seq<char>, value: JsonView| refusal_field(key, value),
    )
}

pub open spec fn summary_part(value: JsonView) -> bool {
    value matches JsonView::Object(members) && says(members, "summary_text"@) && holds(
        members,
        seq!["text"@],
        |key: Seq<char>, value: JsonView| text_field(key, value),
    )
}

pub open spec fn reasoning_part(value: JsonView) -> bool {
    value matches JsonView::Object(members) && says(members, "reasoning_text"@) && holds(
        members,
        seq!["text"@],
        |key: Seq<char>, value: JsonView| text_field(key, value),
    )
}

// ---------------------------------------------------------------------------
// Tools.

pub open spec fn grammar_field(key: Seq<char>, value: JsonView) -> bool {
    if key == "syntax"@ {
        is_among(value, seq!["lark"@, "regex"@])
    } else {
        (key == "type"@ || key == "definition"@) && value is Text
    }
}

pub open spec fn type_field(key: Seq<char>, value: JsonView) -> bool {
    key == "type"@ && value is Text
}

pub open spec fn custom_format(value: JsonView) -> bool {
    value matches JsonView::Object(members) && {
        ||| says(members, "text"@) && holds(
            members,
            seq![],
            |key: Seq<char>, value: JsonView| type_field(key, value),
        )
        ||| says(members, "grammar"@) && holds(
            members,
            seq!["syntax"@, "definition"@],
            |key: Seq<char>, value: JsonView| grammar_field(key, value),
        )
    }
}

/// A tool is never deferred: it could only be reached through a hosted one.
pub open spec fn function_field(key: Seq<char>, value: JsonView) -> bool {
    if key == "name"@ {
        is_named(value)
    } else if key == "parameters"@ {
        value is Object
    } else if key == "strict"@ {
        bool_or_null(value)
    } else if key == "defer_loading"@ {
        value == JsonView::Bool(false)
    } else {
        (key == "type"@ || key == "description"@) && value is Text
    }
}

pub open spec fn custom_field(key: Seq<char>, value: JsonView) -> bool {
    if key == "name"@ {
        is_named(value)
    } else if key == "format"@ {
        custom_format(value)
    } else if key == "defer_loading"@ {
        value == JsonView::Bool(false)
    } else {
        (key == "type"@ || key == "description"@) && value is Text
    }
}

/// A tool that runs on the client: a function or a custom tool.
pub open spec fn client_tool(value: JsonView) -> bool {
    value matches JsonView::Object(members) && {
        ||| says(members, "function"@) && holds(
            members,
            seq!["name"@],
            |key: Seq<char>, value: JsonView| function_field(key, value),
        )
        ||| says(members, "custom"@) && holds(
            members,
            seq!["name"@],
            |key: Seq<char>, value: JsonView| custom_field(key, value),
        )
    }
}

pub open spec fn namespace_field(key: Seq<char>, value: JsonView) -> bool {
    if key == "name"@ {
        is_named(value)
    } else if key == "tools"@ {
        each(value, |tool: JsonView| client_tool(tool))
    } else {
        (key == "type"@ || key == "description"@) && value is Text
    }
}

/// A client's tool, or a namespace of them. No hosted tool is one.
pub open spec fn acceptable_tool(value: JsonView) -> bool {
    ||| client_tool(value)
    ||| value matches JsonView::Object(members) && says(members, "namespace"@) && holds(
        members,
        seq!["name"@, "tools"@],
        |key: Seq<char>, value: JsonView| namespace_field(key, value),
    )
}

pub open spec fn choice_field(key: Seq<char>, value: JsonView) -> bool {
    if key == "name"@ {
        is_named(value)
    } else {
        key == "type"@ && value is Text
    }
}

pub open spec fn named_choice(value: JsonView) -> bool {
    value matches JsonView::Object(members) && (says(members, "function"@) || says(
        members,
        "custom"@,
    )) && holds(
        members,
        seq!["name"@],
        |key: Seq<char>, value: JsonView| choice_field(key, value),
    )
}

pub open spec fn tool_choice(value: JsonView) -> bool {
    is_among(value, seq!["auto"@, "none"@, "required"@]) || named_choice(value)
}

// ---------------------------------------------------------------------------
// Input items.

/// What refers to a stored item is accepted, whatever it holds: it is dropped.
pub open spec fn stored(key: Seq<char>) -> bool {
    key == "id"@ || key == "status"@
}

pub open spec fn message_field(key: Seq<char>, value: JsonView) -> bool {
    if key == "role"@ {
        is_among(value, seq!["user"@, "assistant"@, "system"@, "developer"@])
    } else if key == "content"@ {
        value is Text || each(value, |part: JsonView| message_part(part))
    } else if key == "phase"@ {
        is_among(value, seq!["commentary"@, "final_answer"@])
    } else {
        stored(key) || (key == "type"@ && value is Text)
    }
}

pub open spec fn reasoning_item_field(key: Seq<char>, value: JsonView) -> bool {
    if key == "summary"@ {
        each(value, |part: JsonView| summary_part(part))
    } else if key == "content"@ {
        each(value, |part: JsonView| reasoning_part(part))
    } else if key == "encrypted_content"@ {
        is_named(value)
    } else {
        stored(key) || (key == "type"@ && value is Text)
    }
}

/// A call of a tool; `argument` is where its arguments stand.
pub open spec fn call_field(argument: Seq<char>, key: Seq<char>, value: JsonView) -> bool {
    if key == "call_id"@ || key == "name"@ {
        is_named(value)
    } else {
        stored(key) || ((key == "type"@ || key == "namespace"@ || key == argument) && value is Text)
    }
}

/// What a tool gave back. Only a function's output may name a namespace.
pub open spec fn result_field(namespaced: bool, key: Seq<char>, value: JsonView) -> bool {
    if key == "call_id"@ {
        is_named(value)
    } else if key == "output"@ {
        value is Text || each(value, |part: JsonView| tool_output_part(part))
    } else {
        stored(key) || ((key == "type"@ || key == "name"@ || (namespaced && key == "namespace"@))
            && value is Text)
    }
}

pub open spec fn declaring_field(key: Seq<char>, value: JsonView) -> bool {
    if key == "role"@ {
        is_among(value, seq!["developer"@])
    } else if key == "tools"@ {
        each(value, |tool: JsonView| acceptable_tool(tool))
    } else {
        key == "id"@ || (key == "type"@ && value is Text)
    }
}

/// One item of a conversation. An item with a role and without a type is a
/// message.
pub open spec fn input_item(value: JsonView) -> bool {
    value matches JsonView::Object(members) && {
        ||| (says(members, "message"@) || (!has_member(members, "type"@) && has_member(
            members,
            "role"@,
        ))) && holds(
            members,
            seq!["role"@, "content"@],
            |key: Seq<char>, value: JsonView| message_field(key, value),
        )
        ||| says(members, "reasoning"@) && holds(
            members,
            seq!["encrypted_content"@],
            |key: Seq<char>, value: JsonView| reasoning_item_field(key, value),
        )
        ||| says(members, "function_call"@) && holds(
            members,
            seq!["call_id"@, "name"@, "arguments"@],
            |key: Seq<char>, value: JsonView| call_field("arguments"@, key, value),
        )
        ||| says(members, "function_call_output"@) && holds(
            members,
            seq!["call_id"@, "output"@],
            |key: Seq<char>, value: JsonView| result_field(true, key, value),
        )
        ||| says(members, "custom_tool_call"@) && holds(
            members,
            seq!["call_id"@, "name"@, "input"@],
            |key: Seq<char>, value: JsonView| call_field("input"@, key, value),
        )
        ||| says(members, "custom_tool_call_output"@) && holds(
            members,
            seq!["call_id"@, "output"@],
            |key: Seq<char>, value: JsonView| result_field(false, key, value),
        )
        ||| says(members, "additional_tools"@) && holds(
            members,
            seq!["role"@, "tools"@],
            |key: Seq<char>, value: JsonView| declaring_field(key, value),
        )
    }
}

// ---------------------------------------------------------------------------
// The request.

pub open spec fn reasoning_field(key: Seq<char>, value: JsonView) -> bool {
    if key == "effort"@ {
        is_among(value, seq!["none"@, "minimal"@, "low"@, "medium"@, "high"@, "xhigh"@])
    } else if key == "summary"@ {
        is_among(value, seq!["auto"@, "concise"@, "detailed"@, "none"@])
    } else {
        key == "context"@ && is_among(value, seq!["auto"@, "current_turn"@, "all_turns"@])
    }
}

pub open spec fn schema_field(key: Seq<char>, value: JsonView) -> bool {
    if key == "name"@ {
        is_named(value)
    } else if key == "schema"@ {
        value is Object
    } else if key == "strict"@ {
        bool_or_null(value)
    } else {
        (key == "type"@ || key == "description"@) && value is Text
    }
}

pub open spec fn output_format(value: JsonView) -> bool {
    value matches JsonView::Object(members) && {
        ||| (says(members, "text"@) || says(members, "json_object"@)) && holds(
            members,
            seq![],
            |key: Seq<char>, value: JsonView| type_field(key, value),
        )
        ||| says(members, "json_schema"@) && holds(
            members,
            seq!["name"@, "schema"@],
            |key: Seq<char>, value: JsonView| schema_field(key, value),
        )
    }
}

pub open spec fn text_options_field(key: Seq<char>, value: JsonView) -> bool {
    if key == "verbosity"@ {
        is_among(value, seq!["low"@, "medium"@, "high"@])
    } else {
        key == "format"@ && output_format(value)
    }
}

pub open spec fn cache_field(key: Seq<char>, value: JsonView) -> bool {
    key == "ttl"@ && is_among(value, seq!["30m"@])
}

pub open spec fn object_of(value: JsonView, field: spec_fn(Seq<char>, JsonView) -> bool) -> bool {
    value matches JsonView::Object(members) && holds(members, seq![], field)
}

/// A field of the request itself.
pub open spec fn request_field(key: Seq<char>, value: JsonView) -> bool {
    if key == "stream"@ || key == "client_metadata"@ {
        true
    } else if key == "background"@ {
        value is Null || value == JsonView::Bool(false)
    } else if key == "previous_response_id"@ || key == "conversation"@ || key == "prompt"@ {
        value is Null
    } else if key == "store"@ || key == "parallel_tool_calls"@ {
        value is Bool
    } else if key == "service_tier"@ || key == "instructions"@ || key == "prompt_cache_key"@ {
        value is Text
    } else if key == "model"@ {
        is_named(value)
    } else if key == "input"@ {
        value is Text || each(value, |item: JsonView| input_item(item))
    } else if key == "tools"@ {
        each(value, |tool: JsonView| acceptable_tool(tool))
    } else if key == "tool_choice"@ {
        tool_choice(value)
    } else if key == "reasoning"@ {
        object_of(value, |key: Seq<char>, value: JsonView| reasoning_field(key, value))
    } else if key == "text"@ {
        object_of(value, |key: Seq<char>, value: JsonView| text_options_field(key, value))
    } else if key == "prompt_cache_options"@ {
        object_of(value, |key: Seq<char>, value: JsonView| cache_field(key, value))
    } else if key == "include"@ {
        each(value, |entry: JsonView| entry == JsonView::Text("reasoning.encrypted_content"@))
    } else if key == "max_output_tokens"@ {
        value matches JsonView::Number(NumberView::Unsigned(n)) && n > 0
    } else if key == "temperature"@ || key == "top_p"@ {
        value is Number
    } else {
        key == "metadata"@ && object_of(
            value,
            |key: Seq<char>, value: JsonView| value is Text,
        )
    }
}

// ---------------------------------------------------------------------------
// How the checks come to it.

/// A field of a shape passes.
spec fn passes(shape: Shape, key: Seq<char>, value: JsonView, path: Seq<char>) -> bool {
    rule_of(shape, key) matches Some(rule) && (rule is Strip || checked(
        rule,
        value,
        joined_path(path, key),
    ) is Ok)
}

proof fn lemma_fields(shape: Shape, members: Seq<(Seq<char>, JsonView)>, path: Seq<char>)
    ensures
        checked_fields(shape, members, path) is Ok <==> forall|i: int|
            0 <= i < members.len() ==> passes(
                shape,
                (#[trigger] members[i]).0,
                members[i].1,
                path,
            ),
    decreases members.len(),
{
    if members.len() > 0 {
        let front = members.drop_last();
        lemma_fields(shape, front, path);
        assert forall|i: int| 0 <= i < front.len() implies front[i] == #[trigger] members[i] by {}
        let last = members[members.len() - 1];
        assert(last == members.last());
        if checked_fields(shape, members, path) is Ok {
            assert forall|i: int| 0 <= i < members.len() implies passes(
                shape,
                (#[trigger] members[i]).0,
                members[i].1,
                path,
            ) by {
                if i < front.len() {
                    assert(front[i] == members[i]);
                }
            }
        } else if forall|i: int|
            0 <= i < members.len() ==> passes(
                shape,
                (#[trigger] members[i]).0,
                members[i].1,
                path,
            ) {
            assert(passes(shape, last.0, last.1, path));
        }
    }
}

/// Whether every name is there.
proof fn lemma_missing(required: Seq<Seq<char>>, members: Seq<(Seq<char>, JsonView)>, from: int)
    requires
        0 <= from <= required.len(),
    ensures
        from <= first_missing(required, members, from) <= required.len(),
        first_missing(required, members, from) == required.len() <==> forall|j: int|
            from <= j < required.len() ==> has_member(members, #[trigger] required[j]),
    decreases required.len() - from,
{
    if from < required.len() {
        lemma_missing(required, members, from + 1);
        if has_member(members, required[from]) {
            if first_missing(required, members, from) == required.len() {
                assert forall|j: int| from <= j < required.len() implies has_member(
                    members,
                    #[trigger] required[j],
                ) by {
                    if j > from {
                        assert(from + 1 <= j);
                    }
                }
            }
        }
    }
}

/// What a shape needs is never dropped from it.
proof fn lemma_needed_kept(shape: Shape, j: int)
    requires
        0 <= j < required_of(shape).len(),
    ensures
        survives(shape, required_of(shape)[j]),
{
    reveal_strlit("id");
    reveal_strlit("status");
    reveal_strlit("annotations");
    reveal_strlit("logprobs");
    reveal_strlit("role");
    reveal_strlit("content");
    reveal_strlit("encrypted_content");
    reveal_strlit("call_id");
    reveal_strlit("name");
    reveal_strlit("arguments");
    reveal_strlit("output");
    reveal_strlit("input");
    reveal_strlit("tools");
    reveal_strlit("text");
    reveal_strlit("refusal");
    reveal_strlit("image_url");
    assert("id"@.len() == 2 && "annotations"@.len() == 11 && "logprobs"@.len() == 8);
    assert("status"@.len() == 6 && "status"@[0] == 's');
    assert("role"@.len() == 4 && "name"@.len() == 4 && "text"@.len() == 4);
    assert("content"@.len() == 7 && "call_id"@.len() == 7 && "refusal"@.len() == 7);
    assert("encrypted_content"@.len() == 17);
    assert("arguments"@.len() == 9 && "image_url"@.len() == 9);
    assert("output"@.len() == 6 && "output"@[0] == 'o');
    assert("input"@.len() == 5 && "tools"@.len() == 5);
}

proof fn lemma_shape(
    shape: Shape,
    members: Seq<(Seq<char>, JsonView)>,
    path: Seq<char>,
    field: spec_fn(Seq<char>, JsonView) -> bool,
)
    requires
        forall|i: int|
            0 <= i < members.len() ==> (passes(
                shape,
                (#[trigger] members[i]).0,
                members[i].1,
                path,
            ) <==> field(members[i].0, members[i].1)),
    ensures
        checked_shape(shape, members, path) is Ok <==> holds(members, required_of(shape), field),
{
    let required = required_of(shape);
    lemma_fields(shape, members, path);
    match checked_fields(shape, members, path) {
        Ok(kept) => {
            lemma_missing(required, kept, 0);
            assert forall|j: int| 0 <= j < required.len() implies has_member(
                kept,
                #[trigger] required[j],
            ) == has_member(members, required[j]) by {
                lemma_needed_kept(shape, j);
                lemma_kept_member(shape, members, path, required[j]);
            }
        },
        Err(_) => {},
    }
}

proof fn lemma_each(
    element: Element,
    items: Seq<JsonView>,
    path: Seq<char>,
    item: spec_fn(JsonView) -> bool,
)
    requires
        forall|value: JsonView, at: Seq<char>|
            (#[trigger] checked_element(element, value, at)) is Ok <==> item(value),
    ensures
        checked_items(element, items, path) is Ok <==> forall|i: int|
            0 <= i < items.len() ==> item(#[trigger] items[i]),
    decreases items.len(),
{
    if items.len() > 0 {
        let front = items.drop_last();
        lemma_each(element, front, path, item);
        let last = items[items.len() - 1];
        assert(checked_element(element, last, index_path(path, (items.len() - 1) as nat)) is Ok
            <==> item(last));
        if checked_items(element, items, path) is Ok {
            assert forall|i: int| 0 <= i < items.len() implies item(#[trigger] items[i]) by {
                if i < front.len() {
                    assert(front[i] == items[i]);
                }
            }
        } else if forall|i: int| 0 <= i < items.len() ==> item(#[trigger] items[i]) {
            assert forall|i: int| 0 <= i < front.len() implies item(#[trigger] front[i]) by {
                assert(front[i] == items[i]);
            }
            assert(item(last));
        }
    }
}

proof fn lemma_input_text(key: Seq<char>, value: JsonView, path: Seq<char>)
    ensures
        passes(Shape::InputText, key, value, path) <==> text_field(key, value),
{
    reveal_strlit("type");
    reveal_strlit("text");
    assert("type"@.len() == 4 && "type"@[1] == 'y');
    assert("text"@.len() == 4 && "text"@[1] == 'e');
}

proof fn lemma_output_text(key: Seq<char>, value: JsonView, path: Seq<char>)
    ensures
        passes(Shape::OutputText, key, value, path) <==> output_text_field(key, value),
{
    reveal_strlit("type");
    reveal_strlit("text");
    reveal_strlit("annotations");
    reveal_strlit("logprobs");
    assert("type"@.len() == 4 && "type"@[1] == 'y');
    assert("text"@.len() == 4 && "text"@[1] == 'e');
    assert("annotations"@.len() == 11);
    assert("logprobs"@.len() == 8);
}

proof fn lemma_refusal(key: Seq<char>, value: JsonView, path: Seq<char>)
    ensures
        passes(Shape::RefusalPart, key, value, path) <==> refusal_field(key, value),
{
    reveal_strlit("type");
    reveal_strlit("refusal");
    assert("type"@.len() == 4);
    assert("refusal"@.len() == 7);
}

proof fn lemma_image(key: Seq<char>, value: JsonView, path: Seq<char>)
    ensures
        passes(Shape::InputImage, key, value, path) <==> image_field(key, value),
{
    reveal_strlit("type");
    reveal_strlit("image_url");
    reveal_strlit("detail");
    assert("type"@.len() == 4);
    assert("image_url"@.len() == 9);
    assert("detail"@.len() == 6);
}

proof fn lemma_summary_text(key: Seq<char>, value: JsonView, path: Seq<char>)
    ensures
        passes(Shape::SummaryText, key, value, path) <==> text_field(key, value),
{
    reveal_strlit("type");
    reveal_strlit("text");
    assert("type"@.len() == 4 && "type"@[1] == 'y');
    assert("text"@.len() == 4 && "text"@[1] == 'e');
}

proof fn lemma_reasoning_text(key: Seq<char>, value: JsonView, path: Seq<char>)
    ensures
        passes(Shape::ReasoningText, key, value, path) <==> text_field(key, value),
{
    reveal_strlit("type");
    reveal_strlit("text");
    assert("type"@.len() == 4 && "type"@[1] == 'y');
    assert("text"@.len() == 4 && "text"@[1] == 'e');
}

proof fn lemma_grammar(key: Seq<char>, value: JsonView, path: Seq<char>)
    ensures
        passes(Shape::GrammarFormat, key, value, path) <==> grammar_field(key, value),
{
    reveal_strlit("type");
    reveal_strlit("syntax");
    reveal_strlit("definition");
    assert("type"@.len() == 4);
    assert("syntax"@.len() == 6);
    assert("definition"@.len() == 10);
}

proof fn lemma_named_choice(key: Seq<char>, value: JsonView, path: Seq<char>)
    ensures
        passes(Shape::NamedToolChoice, key, value, path) <==> choice_field(key, value),
{
    reveal_strlit("type");
    reveal_strlit("name");
    assert("type"@.len() == 4 && "type"@[0] == 't');
    assert("name"@.len() == 4 && "name"@[0] == 'n');
}

proof fn lemma_function(key: Seq<char>, value: JsonView, path: Seq<char>)
    ensures
        passes(Shape::FunctionTool, key, value, path) <==> function_field(key, value),
{
    reveal_strlit("type");
    reveal_strlit("name");
    reveal_strlit("description");
    reveal_strlit("parameters");
    reveal_strlit("strict");
    reveal_strlit("defer_loading");
    assert("type"@.len() == 4 && "type"@[0] == 't');
    assert("name"@.len() == 4 && "name"@[0] == 'n');
    assert("description"@.len() == 11);
    assert("parameters"@.len() == 10);
    assert("strict"@.len() == 6);
    assert("defer_loading"@.len() == 13);
}

#[verifier::spinoff_prover]
proof fn lemma_tool_output_part(value: JsonView, path: Seq<char>)
    ensures
        checked_element(Element::OutputPart, value, path) is Ok <==> tool_output_part(value),
{
    reveal_strlit("input_text");
    reveal_strlit("output_text");
    reveal_strlit("refusal");
    reveal_strlit("input_image");
    assert("input_text"@.len() == 10);
    assert("output_text"@.len() == 11 && "output_text"@[0] == 'o');
    assert("refusal"@.len() == 7);
    assert("input_image"@.len() == 11 && "input_image"@[0] == 'i');
    if let JsonView::Object(members) = value {
        assert(parts_of(Element::OutputPart)[0] == "input_text"@);
        assert(parts_of(Element::OutputPart)[1] == "input_image"@);
        assert forall|i: int| 0 <= i < members.len() implies (passes(
            Shape::InputText,
            (#[trigger] members[i]).0,
            members[i].1,
            path,
        ) <==> text_field(members[i].0, members[i].1)) by {
            lemma_input_text(members[i].0, members[i].1, path);
        }
        lemma_shape(
            Shape::InputText,
            members,
            path,
            |key: Seq<char>, value: JsonView| text_field(key, value),
        );
        assert forall|i: int| 0 <= i < members.len() implies (passes(
            Shape::InputImage,
            (#[trigger] members[i]).0,
            members[i].1,
            path,
        ) <==> image_field(members[i].0, members[i].1)) by {
            lemma_image(members[i].0, members[i].1, path);
        }
        lemma_shape(
            Shape::InputImage,
            members,
            path,
            |key: Seq<char>, value: JsonView| image_field(key, value),
        );
    }
}

#[verifier::spinoff_prover]
proof fn lemma_message_part(value: JsonView, path: Seq<char>)
    ensures
        checked_element(Element::MessagePart, value, path) is Ok <==> message_part(value),
{
    reveal_strlit("input_text");
    reveal_strlit("output_text");
    reveal_strlit("refusal");
    reveal_strlit("input_image");
    assert("input_text"@.len() == 10);
    assert("output_text"@.len() == 11 && "output_text"@[0] == 'o');
    assert("refusal"@.len() == 7);
    assert("input_image"@.len() == 11 && "input_image"@[0] == 'i');
    if let JsonView::Object(members) = value {
        let parts = parts_of(Element::MessagePart);
        assert(parts[0] == "input_text"@ && parts[1] == "output_text"@);
        assert(parts[2] == "refusal"@ && parts[3] == "input_image"@);
        assert forall|i: int| 0 <= i < members.len() implies (passes(
            Shape::InputText,
            (#[trigger] members[i]).0,
            members[i].1,
            path,
        ) <==> text_field(members[i].0, members[i].1)) by {
            lemma_input_text(members[i].0, members[i].1, path);
        }
        lemma_shape(
            Shape::InputText,
            members,
            path,
            |key: Seq<char>, value: JsonView| text_field(key, value),
        );
        assert forall|i: int| 0 <= i < members.len() implies (passes(
            Shape::OutputText,
            (#[trigger] members[i]).0,
            members[i].1,
            path,
        ) <==> output_text_field(members[i].0, members[i].1)) by {
            lemma_output_text(members[i].0, members[i].1, path);
        }
        lemma_shape(
            Shape::OutputText,
            members,
            path,
            |key: Seq<char>, value: JsonView| output_text_field(key, value),
        );
        assert forall|i: int| 0 <= i < members.len() implies (passes(
            Shape::RefusalPart,
            (#[trigger] members[i]).0,
            members[i].1,
            path,
        ) <==> refusal_field(members[i].0, members[i].1)) by {
            lemma_refusal(members[i].0, members[i].1, path);
        }
        lemma_shape(
            Shape::RefusalPart,
            members,
            path,
            |key: Seq<char>, value: JsonView| refusal_field(key, value),
        );
        assert forall|i: int| 0 <= i < members.len() implies (passes(
            Shape::InputImage,
            (#[trigger] members[i]).0,
            members[i].1,
            path,
        ) <==> image_field(members[i].0, members[i].1)) by {
            lemma_image(members[i].0, members[i].1, path);
        }
        lemma_shape(
            Shape::InputImage,
            members,
            path,
            |key: Seq<char>, value: JsonView| image_field(key, value),
        );
    }
}

#[verifier::spinoff_prover]
proof fn lemma_summary_part(value: JsonView, path: Seq<char>)
    ensures
        checked_element(Element::SummaryPart, value, path) is Ok <==> summary_part(value),
{

    if let JsonView::Object(members) = value {
        assert forall|i: int| 0 <= i < members.len() implies (passes(
            Shape::SummaryText,
            (#[trigger] members[i]).0,
            members[i].1,
            path,
        ) <==> text_field(members[i].0, members[i].1)) by {
            lemma_summary_text(members[i].0, members[i].1, path);
        }
        lemma_shape(
            Shape::SummaryText,
            members,
            path,
            |key: Seq<char>, value: JsonView| text_field(key, value),
        );
    }
}

#[verifier::spinoff_prover]
proof fn lemma_reasoning_part(value: JsonView, path: Seq<char>)
    ensures
        checked_element(Element::ReasoningPart, value, path) is Ok <==> reasoning_part(value),
{

    if let JsonView::Object(members) = value {
        assert forall|i: int| 0 <= i < members.len() implies (passes(
            Shape::ReasoningText,
            (#[trigger] members[i]).0,
            members[i].1,
            path,
        ) <==> text_field(members[i].0, members[i].1)) by {
            lemma_reasoning_text(members[i].0, members[i].1, path);
        }
        lemma_shape(
            Shape::ReasoningText,
            members,
            path,
            |key: Seq<char>, value: JsonView| text_field(key, value),
        );
    }
}

proof fn lemma_type_only(shape: Shape, key: Seq<char>, value: JsonView, path: Seq<char>)
    requires
        shape is TextFormat || shape is PlainOutputFormat,
    ensures
        passes(shape, key, value, path) <==> type_field(key, value),
{
}

#[verifier::spinoff_prover]
proof fn lemma_custom_format(value: JsonView, path: Seq<char>)
    ensures
        checked_element(Element::CustomFormat, value, path) is Ok <==> custom_format(value),
{
    reveal_strlit("text");
    reveal_strlit("grammar");
    assert("text"@.len() == 4);
    assert("grammar"@.len() == 7);
    if let JsonView::Object(members) = value {
        assert forall|i: int| 0 <= i < members.len() implies (passes(
            Shape::TextFormat,
            (#[trigger] members[i]).0,
            members[i].1,
            path,
        ) <==> type_field(members[i].0, members[i].1)) by {
            lemma_type_only(Shape::TextFormat, members[i].0, members[i].1, path);
        }
        lemma_shape(
            Shape::TextFormat,
            members,
            path,
            |key: Seq<char>, value: JsonView| type_field(key, value),
        );
        assert forall|i: int| 0 <= i < members.len() implies (passes(
            Shape::GrammarFormat,
            (#[trigger] members[i]).0,
            members[i].1,
            path,
        ) <==> grammar_field(members[i].0, members[i].1)) by {
            lemma_grammar(members[i].0, members[i].1, path);
        }
        lemma_shape(
            Shape::GrammarFormat,
            members,
            path,
            |key: Seq<char>, value: JsonView| grammar_field(key, value),
        );
    }
}

proof fn lemma_custom(key: Seq<char>, value: JsonView, path: Seq<char>)
    ensures
        passes(Shape::CustomTool, key, value, path) <==> custom_field(key, value),
{
    reveal_strlit("type");
    reveal_strlit("name");
    reveal_strlit("description");
    reveal_strlit("format");
    reveal_strlit("defer_loading");
    assert("type"@.len() == 4 && "type"@[0] == 't');
    assert("name"@.len() == 4 && "name"@[0] == 'n');
    assert("description"@.len() == 11);
    assert("format"@.len() == 6);
    assert("defer_loading"@.len() == 13);
    lemma_custom_format(value, joined_path(path, key));
}

#[verifier::spinoff_prover]
proof fn lemma_client_tool(value: JsonView, path: Seq<char>)
    ensures
        checked_element(Element::NamespacedTool, value, path) is Ok <==> client_tool(value),
{
    reveal_strlit("function");
    reveal_strlit("custom");
    reveal_strlit("namespace");
    assert("function"@.len() == 8);
    assert("custom"@.len() == 6);
    assert("namespace"@.len() == 9);
    if let JsonView::Object(members) = value {
        assert forall|i: int| 0 <= i < members.len() implies (passes(
            Shape::FunctionTool,
            (#[trigger] members[i]).0,
            members[i].1,
            path,
        ) <==> function_field(members[i].0, members[i].1)) by {
            lemma_function(members[i].0, members[i].1, path);
        }
        lemma_shape(
            Shape::FunctionTool,
            members,
            path,
            |key: Seq<char>, value: JsonView| function_field(key, value),
        );
        assert forall|i: int| 0 <= i < members.len() implies (passes(
            Shape::CustomTool,
            (#[trigger] members[i]).0,
            members[i].1,
            path,
        ) <==> custom_field(members[i].0, members[i].1)) by {
            lemma_custom(members[i].0, members[i].1, path);
        }
        lemma_shape(
            Shape::CustomTool,
            members,
            path,
            |key: Seq<char>, value: JsonView| custom_field(key, value),
        );
    }
}

proof fn lemma_namespace(key: Seq<char>, value: JsonView, path: Seq<char>)
    ensures
        passes(Shape::NamespaceTool, key, value, path) <==> namespace_field(key, value),
{
    reveal_strlit("type");
    reveal_strlit("name");
    reveal_strlit("description");
    reveal_strlit("tools");
    assert("type"@.len() == 4 && "type"@[0] == 't');
    assert("name"@.len() == 4 && "name"@[0] == 'n');
    assert("description"@.len() == 11);
    assert("tools"@.len() == 5);
    if let JsonView::Array(items) = value {
        assert forall|item: JsonView, at: Seq<char>|
            (#[trigger] checked_element(Element::NamespacedTool, item, at)) is Ok <==> client_tool(item) by {
            lemma_client_tool(item, at);
        }
        lemma_each(Element::NamespacedTool, items, joined_path(path, key), |item: JsonView| client_tool(item));
    }
}

#[verifier::spinoff_prover]
proof fn lemma_tool(value: JsonView, path: Seq<char>)
    ensures
        checked_element(Element::Tool, value, path) is Ok <==> acceptable_tool(value),
{
    reveal_strlit("function");
    reveal_strlit("custom");
    reveal_strlit("namespace");
    assert("function"@.len() == 8);
    assert("custom"@.len() == 6);
    assert("namespace"@.len() == 9);
    if let JsonView::Object(members) = value {
        assert forall|i: int| 0 <= i < members.len() implies (passes(
            Shape::FunctionTool,
            (#[trigger] members[i]).0,
            members[i].1,
            path,
        ) <==> function_field(members[i].0, members[i].1)) by {
            lemma_function(members[i].0, members[i].1, path);
        }
        lemma_shape(
            Shape::FunctionTool,
            members,
            path,
            |key: Seq<char>, value: JsonView| function_field(key, value),
        );
        assert forall|i: int| 0 <= i < members.len() implies (passes(
            Shape::CustomTool,
            (#[trigger] members[i]).0,
            members[i].1,
            path,
        ) <==> custom_field(members[i].0, members[i].1)) by {
            lemma_custom(members[i].0, members[i].1, path);
        }
        lemma_shape(
            Shape::CustomTool,
            members,
            path,
            |key: Seq<char>, value: JsonView| custom_field(key, value),
        );
        assert forall|i: int| 0 <= i < members.len() implies (passes(
            Shape::NamespaceTool,
            (#[trigger] members[i]).0,
            members[i].1,
            path,
        ) <==> namespace_field(members[i].0, members[i].1)) by {
            lemma_namespace(members[i].0, members[i].1, path);
        }
        lemma_shape(
            Shape::NamespaceTool,
            members,
            path,
            |key: Seq<char>, value: JsonView| namespace_field(key, value),
        );
    }
}

#[verifier::spinoff_prover]
proof fn lemma_choice(value: JsonView, path: Seq<char>)
    ensures
        checked_element(Element::NamedChoice, value, path) is Ok <==> named_choice(value),
{
    reveal_strlit("function");
    reveal_strlit("custom");
    assert("function"@.len() == 8);
    assert("custom"@.len() == 6);
    if let JsonView::Object(members) = value {
        assert forall|i: int| 0 <= i < members.len() implies (passes(
            Shape::NamedToolChoice,
            (#[trigger] members[i]).0,
            members[i].1,
            path,
        ) <==> choice_field(members[i].0, members[i].1)) by {
            lemma_named_choice(members[i].0, members[i].1, path);
        }
        lemma_shape(
            Shape::NamedToolChoice,
            members,
            path,
            |key: Seq<char>, value: JsonView| choice_field(key, value),
        );
    }
}

proof fn lemma_message(key: Seq<char>, value: JsonView, path: Seq<char>)
    ensures
        passes(Shape::Message, key, value, path) <==> message_field(key, value),
{
    reveal_strlit("type");
    reveal_strlit("id");
    reveal_strlit("status");
    reveal_strlit("role");
    reveal_strlit("content");
    reveal_strlit("phase");
    assert("type"@.len() == 4 && "type"@[0] == 't');
    assert("id"@.len() == 2);
    assert("status"@.len() == 6);
    assert("role"@.len() == 4 && "role"@[0] == 'r');
    assert("content"@.len() == 7);
    assert("phase"@.len() == 5);
    if let JsonView::Array(items) = value {
        assert forall|item: JsonView, at: Seq<char>|
            (#[trigger] checked_element(Element::MessagePart, item, at)) is Ok <==> message_part(item) by {
            lemma_message_part(item, at);
        }
        lemma_each(Element::MessagePart, items, joined_path(path, key), |item: JsonView| message_part(item));
    }
}

proof fn lemma_reasoning_item(key: Seq<char>, value: JsonView, path: Seq<char>)
    ensures
        passes(Shape::ReasoningItem, key, value, path) <==> reasoning_item_field(key, value),
{
    reveal_strlit("type");
    reveal_strlit("id");
    reveal_strlit("status");
    reveal_strlit("summary");
    reveal_strlit("content");
    reveal_strlit("encrypted_content");
    assert("type"@.len() == 4);
    assert("id"@.len() == 2);
    assert("status"@.len() == 6);
    assert("summary"@.len() == 7 && "summary"@[0] == 's');
    assert("content"@.len() == 7 && "content"@[0] == 'c');
    assert("encrypted_content"@.len() == 17);
    if let JsonView::Array(items) = value {
        assert forall|item: JsonView, at: Seq<char>|
            (#[trigger] checked_element(Element::SummaryPart, item, at)) is Ok <==> summary_part(item) by {
            lemma_summary_part(item, at);
        }
        lemma_each(Element::SummaryPart, items, joined_path(path, key), |item: JsonView| summary_part(item));
    }
    if let JsonView::Array(items) = value {
        assert forall|item: JsonView, at: Seq<char>|
            (#[trigger] checked_element(Element::ReasoningPart, item, at)) is Ok <==> reasoning_part(item) by {
            lemma_reasoning_part(item, at);
        }
        lemma_each(Element::ReasoningPart, items, joined_path(path, key), |item: JsonView| reasoning_part(item));
    }
}

proof fn lemma_function_call(key: Seq<char>, value: JsonView, path: Seq<char>)
    ensures
        passes(Shape::FunctionCall, key, value, path) <==> call_field("arguments"@, key, value),
{
    reveal_strlit("type");
    reveal_strlit("id");
    reveal_strlit("status");
    reveal_strlit("call_id");
    reveal_strlit("name");
    reveal_strlit("namespace");
    reveal_strlit("arguments");
    assert("type"@.len() == 4 && "type"@[0] == 't');
    assert("id"@.len() == 2);
    assert("status"@.len() == 6);
    assert("call_id"@.len() == 7);
    assert("name"@.len() == 4 && "name"@[0] == 'n');
    assert("namespace"@.len() == 9 && "namespace"@[0] == 'n');
    assert("arguments"@.len() == 9 && "arguments"@[0] == 'a');
}

proof fn lemma_custom_call(key: Seq<char>, value: JsonView, path: Seq<char>)
    ensures
        passes(Shape::CustomToolCall, key, value, path) <==> call_field("input"@, key, value),
{
    reveal_strlit("type");
    reveal_strlit("id");
    reveal_strlit("status");
    reveal_strlit("call_id");
    reveal_strlit("name");
    reveal_strlit("namespace");
    reveal_strlit("input");
    assert("type"@.len() == 4 && "type"@[0] == 't');
    assert("id"@.len() == 2);
    assert("status"@.len() == 6);
    assert("call_id"@.len() == 7);
    assert("name"@.len() == 4 && "name"@[0] == 'n');
    assert("namespace"@.len() == 9);
    assert("input"@.len() == 5);
}

proof fn lemma_function_result(key: Seq<char>, value: JsonView, path: Seq<char>)
    ensures
        passes(Shape::FunctionCallOutput, key, value, path) <==> result_field(true, key, value),
{
    reveal_strlit("type");
    reveal_strlit("id");
    reveal_strlit("status");
    reveal_strlit("call_id");
    reveal_strlit("name");
    reveal_strlit("namespace");
    reveal_strlit("output");
    assert("type"@.len() == 4 && "type"@[0] == 't');
    assert("id"@.len() == 2);
    assert("status"@.len() == 6 && "status"@[0] == 's');
    assert("call_id"@.len() == 7);
    assert("name"@.len() == 4 && "name"@[0] == 'n');
    assert("namespace"@.len() == 9);
    assert("output"@.len() == 6 && "output"@[0] == 'o');
    if let JsonView::Array(items) = value {
        assert forall|item: JsonView, at: Seq<char>|
            (#[trigger] checked_element(Element::OutputPart, item, at)) is Ok <==> tool_output_part(item) by {
            lemma_tool_output_part(item, at);
        }
        lemma_each(Element::OutputPart, items, joined_path(path, key), |item: JsonView| tool_output_part(item));
    }
}

proof fn lemma_custom_result(key: Seq<char>, value: JsonView, path: Seq<char>)
    ensures
        passes(Shape::CustomToolCallOutput, key, value, path) <==> result_field(false, key, value),
{
    reveal_strlit("type");
    reveal_strlit("id");
    reveal_strlit("status");
    reveal_strlit("call_id");
    reveal_strlit("name");
    reveal_strlit("output");
    assert("type"@.len() == 4 && "type"@[0] == 't');
    assert("id"@.len() == 2);
    assert("status"@.len() == 6 && "status"@[0] == 's');
    assert("call_id"@.len() == 7);
    assert("name"@.len() == 4 && "name"@[0] == 'n');
    assert("output"@.len() == 6 && "output"@[0] == 'o');
    if let JsonView::Array(items) = value {
        assert forall|item: JsonView, at: Seq<char>|
            (#[trigger] checked_element(Element::OutputPart, item, at)) is Ok <==> tool_output_part(item) by {
            lemma_tool_output_part(item, at);
        }
        lemma_each(Element::OutputPart, items, joined_path(path, key), |item: JsonView| tool_output_part(item));
    }
}

proof fn lemma_declaring(key: Seq<char>, value: JsonView, path: Seq<char>)
    ensures
        passes(Shape::AdditionalTools, key, value, path) <==> declaring_field(key, value),
{
    reveal_strlit("type");
    reveal_strlit("id");
    reveal_strlit("role");
    reveal_strlit("tools");
    assert("type"@.len() == 4 && "type"@[0] == 't');
    assert("id"@.len() == 2);
    assert("role"@.len() == 4 && "role"@[0] == 'r');
    assert("tools"@.len() == 5);
    if let JsonView::Array(items) = value {
        assert forall|item: JsonView, at: Seq<char>|
            (#[trigger] checked_element(Element::Tool, item, at)) is Ok <==> acceptable_tool(item) by {
            lemma_tool(item, at);
        }
        lemma_each(Element::Tool, items, joined_path(path, key), |item: JsonView| acceptable_tool(item));
    }
}

/// The types of input items are different.
proof fn lemma_item_types()
    ensures
        "message"@ != "reasoning"@,
        "message"@ != "function_call"@,
        "message"@ != "function_call_output"@,
        "message"@ != "custom_tool_call"@,
        "message"@ != "custom_tool_call_output"@,
        "message"@ != "additional_tools"@,
        "reasoning"@ != "function_call"@,
        "reasoning"@ != "function_call_output"@,
        "reasoning"@ != "custom_tool_call"@,
        "reasoning"@ != "custom_tool_call_output"@,
        "reasoning"@ != "additional_tools"@,
        "function_call"@ != "function_call_output"@,
        "function_call"@ != "custom_tool_call"@,
        "function_call"@ != "custom_tool_call_output"@,
        "function_call"@ != "additional_tools"@,
        "function_call_output"@ != "custom_tool_call"@,
        "function_call_output"@ != "custom_tool_call_output"@,
        "function_call_output"@ != "additional_tools"@,
        "custom_tool_call"@ != "custom_tool_call_output"@,
        "custom_tool_call"@ != "additional_tools"@,
        "custom_tool_call_output"@ != "additional_tools"@,
{
    reveal_strlit("message");
    reveal_strlit("reasoning");
    reveal_strlit("function_call");
    reveal_strlit("function_call_output");
    reveal_strlit("custom_tool_call");
    reveal_strlit("custom_tool_call_output");
    reveal_strlit("additional_tools");
    assert("message"@.len() == 7);
    assert("reasoning"@.len() == 9);
    assert("function_call"@.len() == 13);
    assert("function_call_output"@.len() == 20);
    assert("custom_tool_call"@.len() == 16 && "custom_tool_call"@[0] == 'c');
    assert("custom_tool_call_output"@.len() == 23);
    assert("additional_tools"@.len() == 16 && "additional_tools"@[0] == 'a');
}

#[verifier::spinoff_prover]
proof fn lemma_item_of_message(members: Seq<(Seq<char>, JsonView)>, path: Seq<char>)
    requires
        kind_of(Element::InputItem, members, path) == Ok::<Seq<char>, RejectionView>("message"@),
    ensures
        checked_element(Element::InputItem, JsonView::Object(members), path) is Ok <==> input_item(
            JsonView::Object(members),
        ),
{
    lemma_item_types();
    assert forall|i: int| 0 <= i < members.len() implies (passes(
        Shape::Message,
        (#[trigger] members[i]).0,
        members[i].1,
        path,
    ) <==> message_field(members[i].0, members[i].1)) by {
        lemma_message(members[i].0, members[i].1, path);
    }
    lemma_shape(
        Shape::Message,
        members,
        path,
        |key: Seq<char>, value: JsonView| message_field(key, value),
    );
}

#[verifier::spinoff_prover]
proof fn lemma_item_of_reasoning(members: Seq<(Seq<char>, JsonView)>, path: Seq<char>)
    requires
        kind_of(Element::InputItem, members, path) == Ok::<Seq<char>, RejectionView>("reasoning"@),
    ensures
        checked_element(Element::InputItem, JsonView::Object(members), path) is Ok <==> input_item(
            JsonView::Object(members),
        ),
{
    lemma_item_types();
    assert forall|i: int| 0 <= i < members.len() implies (passes(
        Shape::ReasoningItem,
        (#[trigger] members[i]).0,
        members[i].1,
        path,
    ) <==> reasoning_item_field(members[i].0, members[i].1)) by {
        lemma_reasoning_item(members[i].0, members[i].1, path);
    }
    lemma_shape(
        Shape::ReasoningItem,
        members,
        path,
        |key: Seq<char>, value: JsonView| reasoning_item_field(key, value),
    );
}

#[verifier::spinoff_prover]
proof fn lemma_item_of_function_call(members: Seq<(Seq<char>, JsonView)>, path: Seq<char>)
    requires
        kind_of(Element::InputItem, members, path) == Ok::<Seq<char>, RejectionView>("function_call"@),
    ensures
        checked_element(Element::InputItem, JsonView::Object(members), path) is Ok <==> input_item(
            JsonView::Object(members),
        ),
{
    lemma_item_types();
    assert forall|i: int| 0 <= i < members.len() implies (passes(
        Shape::FunctionCall,
        (#[trigger] members[i]).0,
        members[i].1,
        path,
    ) <==> call_field("arguments"@, members[i].0, members[i].1)) by {
        lemma_function_call(members[i].0, members[i].1, path);
    }
    lemma_shape(
        Shape::FunctionCall,
        members,
        path,
        |key: Seq<char>, value: JsonView| call_field("arguments"@, key, value),
    );
}

#[verifier::spinoff_prover]
proof fn lemma_item_of_function_call_output(members: Seq<(Seq<char>, JsonView)>, path: Seq<char>)
    requires
        kind_of(Element::InputItem, members, path) == Ok::<Seq<char>, RejectionView>("function_call_output"@),
    ensures
        checked_element(Element::InputItem, JsonView::Object(members), path) is Ok <==> input_item(
            JsonView::Object(members),
        ),
{
    lemma_item_types();
    assert forall|i: int| 0 <= i < members.len() implies (passes(
        Shape::FunctionCallOutput,
        (#[trigger] members[i]).0,
        members[i].1,
        path,
    ) <==> result_field(true, members[i].0, members[i].1)) by {
        lemma_function_result(members[i].0, members[i].1, path);
    }
    lemma_shape(
        Shape::FunctionCallOutput,
        members,
        path,
        |key: Seq<char>, value: JsonView| result_field(true, key, value),
    );
}

#[verifier::spinoff_prover]
proof fn lemma_item_of_custom_tool_call(members: Seq<(Seq<char>, JsonView)>, path: Seq<char>)
    requires
        kind_of(Element::InputItem, members, path) == Ok::<Seq<char>, RejectionView>("custom_tool_call"@),
    ensures
        checked_element(Element::InputItem, JsonView::Object(members), path) is Ok <==> input_item(
            JsonView::Object(members),
        ),
{
    lemma_item_types();
    assert forall|i: int| 0 <= i < members.len() implies (passes(
        Shape::CustomToolCall,
        (#[trigger] members[i]).0,
        members[i].1,
        path,
    ) <==> call_field("input"@, members[i].0, members[i].1)) by {
        lemma_custom_call(members[i].0, members[i].1, path);
    }
    lemma_shape(
        Shape::CustomToolCall,
        members,
        path,
        |key: Seq<char>, value: JsonView| call_field("input"@, key, value),
    );
}

#[verifier::spinoff_prover]
proof fn lemma_item_of_custom_tool_call_output(members: Seq<(Seq<char>, JsonView)>, path: Seq<char>)
    requires
        kind_of(Element::InputItem, members, path) == Ok::<Seq<char>, RejectionView>("custom_tool_call_output"@),
    ensures
        checked_element(Element::InputItem, JsonView::Object(members), path) is Ok <==> input_item(
            JsonView::Object(members),
        ),
{
    lemma_item_types();
    assert forall|i: int| 0 <= i < members.len() implies (passes(
        Shape::CustomToolCallOutput,
        (#[trigger] members[i]).0,
        members[i].1,
        path,
    ) <==> result_field(false, members[i].0, members[i].1)) by {
        lemma_custom_result(members[i].0, members[i].1, path);
    }
    lemma_shape(
        Shape::CustomToolCallOutput,
        members,
        path,
        |key: Seq<char>, value: JsonView| result_field(false, key, value),
    );
}

#[verifier::spinoff_prover]
proof fn lemma_item_of_additional_tools(members: Seq<(Seq<char>, JsonView)>, path: Seq<char>)
    requires
        kind_of(Element::InputItem, members, path) == Ok::<Seq<char>, RejectionView>("additional_tools"@),
    ensures
        checked_element(Element::InputItem, JsonView::Object(members), path) is Ok <==> input_item(
            JsonView::Object(members),
        ),
{
    lemma_item_types();
    assert forall|i: int| 0 <= i < members.len() implies (passes(
        Shape::AdditionalTools,
        (#[trigger] members[i]).0,
        members[i].1,
        path,
    ) <==> declaring_field(members[i].0, members[i].1)) by {
        lemma_declaring(members[i].0, members[i].1, path);
    }
    lemma_shape(
        Shape::AdditionalTools,
        members,
        path,
        |key: Seq<char>, value: JsonView| declaring_field(key, value),
    );
}

proof fn lemma_input_item(value: JsonView, path: Seq<char>)
    ensures
        checked_element(Element::InputItem, value, path) is Ok <==> input_item(value),
{
    if let JsonView::Object(members) = value {
        if let Ok(kind) = kind_of(Element::InputItem, members, path) {
            if kind == "message"@ {
                lemma_item_of_message(members, path);
            } else if kind == "reasoning"@ {
                lemma_item_of_reasoning(members, path);
            } else if kind == "function_call"@ {
                lemma_item_of_function_call(members, path);
            } else if kind == "function_call_output"@ {
                lemma_item_of_function_call_output(members, path);
            } else if kind == "custom_tool_call"@ {
                lemma_item_of_custom_tool_call(members, path);
            } else if kind == "custom_tool_call_output"@ {
                lemma_item_of_custom_tool_call_output(members, path);
            } else if kind == "additional_tools"@ {
                lemma_item_of_additional_tools(members, path);
            }
        }
    }
}

proof fn lemma_reasoning(key: Seq<char>, value: JsonView, path: Seq<char>)
    ensures
        passes(Shape::Reasoning, key, value, path) <==> reasoning_field(key, value),
{
    reveal_strlit("effort");
    reveal_strlit("summary");
    reveal_strlit("context");
    assert("effort"@.len() == 6);
    assert("summary"@.len() == 7 && "summary"@[0] == 's');
    assert("context"@.len() == 7 && "context"@[0] == 'c');
}

proof fn lemma_schema(key: Seq<char>, value: JsonView, path: Seq<char>)
    ensures
        passes(Shape::JsonSchemaFormat, key, value, path) <==> schema_field(key, value),
{
    reveal_strlit("type");
    reveal_strlit("name");
    reveal_strlit("schema");
    reveal_strlit("strict");
    reveal_strlit("description");
    assert("type"@.len() == 4 && "type"@[0] == 't');
    assert("name"@.len() == 4 && "name"@[0] == 'n');
    assert("schema"@.len() == 6 && "schema"@[1] == 'c');
    assert("strict"@.len() == 6 && "strict"@[1] == 't');
    assert("description"@.len() == 11);
}

#[verifier::spinoff_prover]
proof fn lemma_output_format(value: JsonView, path: Seq<char>)
    ensures
        checked_element(Element::OutputFormat, value, path) is Ok <==> output_format(value),
{
    reveal_strlit("text");
    reveal_strlit("json_object");
    reveal_strlit("json_schema");
    assert("text"@.len() == 4);
    assert("json_object"@.len() == 11 && "json_object"@[5] == 'o');
    assert("json_schema"@.len() == 11 && "json_schema"@[5] == 's');
    if let JsonView::Object(members) = value {
        assert forall|i: int| 0 <= i < members.len() implies (passes(
            Shape::PlainOutputFormat,
            (#[trigger] members[i]).0,
            members[i].1,
            path,
        ) <==> type_field(members[i].0, members[i].1)) by {
            lemma_type_only(Shape::PlainOutputFormat, members[i].0, members[i].1, path);
        }
        lemma_shape(
            Shape::PlainOutputFormat,
            members,
            path,
            |key: Seq<char>, value: JsonView| type_field(key, value),
        );
        assert forall|i: int| 0 <= i < members.len() implies (passes(
            Shape::JsonSchemaFormat,
            (#[trigger] members[i]).0,
            members[i].1,
            path,
        ) <==> schema_field(members[i].0, members[i].1)) by {
            lemma_schema(members[i].0, members[i].1, path);
        }
        lemma_shape(
            Shape::JsonSchemaFormat,
            members,
            path,
            |key: Seq<char>, value: JsonView| schema_field(key, value),
        );
    }
}

proof fn lemma_text_options(key: Seq<char>, value: JsonView, path: Seq<char>)
    ensures
        passes(Shape::TextOptions, key, value, path) <==> text_options_field(key, value),
{
    reveal_strlit("verbosity");
    reveal_strlit("format");
    assert("verbosity"@.len() == 9);
    assert("format"@.len() == 6);
    lemma_output_format(value, joined_path(path, key));
}

proof fn lemma_cache(key: Seq<char>, value: JsonView, path: Seq<char>)
    ensures
        passes(Shape::PromptCacheOptions, key, value, path) <==> cache_field(key, value),
{
    reveal_strlit("ttl");
    assert("ttl"@.len() == 3);
}

proof fn lemma_input_rule(key: Seq<char>, value: JsonView)
    ensures
        checked(Rule::Input, value, key) is Ok <==> value is Text || each(
            value,
            |item: JsonView| input_item(item),
        ),
{
    if let JsonView::Array(items) = value {
        assert forall|item: JsonView, at: Seq<char>|
            (#[trigger] checked_element(Element::InputItem, item, at)) is Ok <==> input_item(item) by {
            lemma_input_item(item, at);
        }
        lemma_each(Element::InputItem, items, key, |item: JsonView| input_item(item));
    }
}

proof fn lemma_tools_rule(key: Seq<char>, value: JsonView)
    ensures
        checked(Rule::ToolList, value, key) is Ok <==> each(value, |tool: JsonView| acceptable_tool(tool)),
{
    if let JsonView::Array(items) = value {
        assert forall|item: JsonView, at: Seq<char>|
            (#[trigger] checked_element(Element::Tool, item, at)) is Ok <==> acceptable_tool(item) by {
            lemma_tool(item, at);
        }
        lemma_each(Element::Tool, items, key, |item: JsonView| acceptable_tool(item));
    }
}

proof fn lemma_choice_rule(key: Seq<char>, value: JsonView)
    ensures
        checked(Rule::ToolChoice, value, key) is Ok <==> tool_choice(value),
{
    lemma_choice(value, key);
    let texts = seq!["auto"@, "none"@, "required"@];
    assert(texts[0] == "auto"@ && texts[1] == "none"@ && texts[2] == "required"@);
}

proof fn lemma_reasoning_rule(key: Seq<char>, value: JsonView)
    ensures
        checked(Rule::ObjectOf(Shape::Reasoning), value, key) is Ok <==> object_of(
            value,
            |key: Seq<char>, value: JsonView| reasoning_field(key, value),
        ),
{
    if let JsonView::Object(members) = value {
        assert forall|i: int| 0 <= i < members.len() implies (passes(
            Shape::Reasoning,
            (#[trigger] members[i]).0,
            members[i].1,
            key,
        ) <==> reasoning_field(members[i].0, members[i].1)) by {
            lemma_reasoning(members[i].0, members[i].1, key);
        }
        lemma_shape(Shape::Reasoning, members, key, |key: Seq<char>, value: JsonView| reasoning_field(key, value));
    }
}

proof fn lemma_text_rule(key: Seq<char>, value: JsonView)
    ensures
        checked(Rule::ObjectOf(Shape::TextOptions), value, key) is Ok <==> object_of(
            value,
            |key: Seq<char>, value: JsonView| text_options_field(key, value),
        ),
{
    if let JsonView::Object(members) = value {
        assert forall|i: int| 0 <= i < members.len() implies (passes(
            Shape::TextOptions,
            (#[trigger] members[i]).0,
            members[i].1,
            key,
        ) <==> text_options_field(members[i].0, members[i].1)) by {
            lemma_text_options(members[i].0, members[i].1, key);
        }
        lemma_shape(Shape::TextOptions, members, key, |key: Seq<char>, value: JsonView| text_options_field(key, value));
    }
}

proof fn lemma_cache_rule(key: Seq<char>, value: JsonView)
    ensures
        checked(Rule::ObjectOf(Shape::PromptCacheOptions), value, key) is Ok <==> object_of(
            value,
            |key: Seq<char>, value: JsonView| cache_field(key, value),
        ),
{
    if let JsonView::Object(members) = value {
        assert forall|i: int| 0 <= i < members.len() implies (passes(
            Shape::PromptCacheOptions,
            (#[trigger] members[i]).0,
            members[i].1,
            key,
        ) <==> cache_field(members[i].0, members[i].1)) by {
            lemma_cache(members[i].0, members[i].1, key);
        }
        lemma_shape(Shape::PromptCacheOptions, members, key, |key: Seq<char>, value: JsonView| cache_field(key, value));
    }
}

proof fn lemma_include_rule(key: Seq<char>, value: JsonView)
    ensures
        checked(Rule::IncludeList, value, key) is Ok <==> each(
            value,
            |entry: JsonView| entry == JsonView::Text("reasoning.encrypted_content"@),
        ),
{
    if let JsonView::Array(items) = value {
        lemma_each(
            Element::IncludeEntry,
            items,
            key,
            |entry: JsonView| entry == JsonView::Text("reasoning.encrypted_content"@),
        );
    }
}

/// Where the first member that is not a text stands.
proof fn lemma_texts(members: Seq<(Seq<char>, JsonView)>, from: int)
    requires
        0 <= from <= members.len(),
    ensures
        from <= first_non_text(members, from) <= members.len(),
        first_non_text(members, from) == members.len() <==> forall|i: int|
            from <= i < members.len() ==> (#[trigger] members[i]).1 is Text,
    decreases members.len() - from,
{
    if from < members.len() {
        lemma_texts(members, from + 1);
        if first_non_text(members, from) == members.len() {
            assert forall|i: int| from <= i < members.len() implies (
            #[trigger] members[i]).1 is Text by {
                if i > from {
                    assert(from + 1 <= i);
                }
            }
        }
    }
}

proof fn lemma_metadata_rule(key: Seq<char>, value: JsonView)
    ensures
        checked(Rule::Metadata, value, key) is Ok <==> object_of(
            value,
            |key: Seq<char>, value: JsonView| value is Text,
        ),
{
    if let JsonView::Object(members) = value {
        lemma_texts(members, 0);
    }
}

#[verifier::spinoff_prover]
proof fn lemma_request_field(key: Seq<char>, value: JsonView)
    ensures
        top_outcome(key, value) is Ok <==> request_field(key, value),
{
    reveal_strlit("stream");
    reveal_strlit("client_metadata");
    reveal_strlit("background");
    reveal_strlit("previous_response_id");
    reveal_strlit("conversation");
    reveal_strlit("prompt");
    reveal_strlit("store");
    reveal_strlit("parallel_tool_calls");
    reveal_strlit("service_tier");
    reveal_strlit("instructions");
    reveal_strlit("prompt_cache_key");
    reveal_strlit("model");
    reveal_strlit("input");
    reveal_strlit("tools");
    reveal_strlit("tool_choice");
    reveal_strlit("reasoning");
    reveal_strlit("text");
    reveal_strlit("prompt_cache_options");
    reveal_strlit("include");
    reveal_strlit("max_output_tokens");
    reveal_strlit("temperature");
    reveal_strlit("top_p");
    reveal_strlit("metadata");
    assert("stream"@.len() == 6 && "stream"@[0] == 's');
    assert("client_metadata"@.len() == 15);
    assert("background"@.len() == 10);
    assert("previous_response_id"@.len() == 20 && "previous_response_id"@[2] == 'e');
    assert("conversation"@.len() == 12 && "conversation"@[0] == 'c');
    assert("prompt"@.len() == 6 && "prompt"@[0] == 'p');
    assert("store"@.len() == 5 && "store"@[0] == 's');
    assert("parallel_tool_calls"@.len() == 19);
    assert("service_tier"@.len() == 12 && "service_tier"@[0] == 's');
    assert("instructions"@.len() == 12 && "instructions"@[0] == 'i');
    assert("prompt_cache_key"@.len() == 16);
    assert("model"@.len() == 5 && "model"@[0] == 'm');
    assert("input"@.len() == 5 && "input"@[0] == 'i');
    assert("tools"@.len() == 5 && "tools"@[0] == 't' && "tools"@[2] == 'o');
    assert("tool_choice"@.len() == 11 && "tool_choice"@[1] == 'o');
    assert("reasoning"@.len() == 9);
    assert("text"@.len() == 4);
    assert("prompt_cache_options"@.len() == 20 && "prompt_cache_options"@[2] == 'o');
    assert("include"@.len() == 7);
    assert("max_output_tokens"@.len() == 17);
    assert("temperature"@.len() == 11 && "temperature"@[1] == 'e');
    assert("top_p"@.len() == 5 && "top_p"@[0] == 't' && "top_p"@[2] == 'p');
    assert("metadata"@.len() == 8);
    lemma_input_rule(key, value);
    lemma_tools_rule(key, value);
    lemma_choice_rule(key, value);
    lemma_reasoning_rule(key, value);
    lemma_text_rule(key, value);
    lemma_cache_rule(key, value);
    lemma_include_rule(key, value);
    lemma_metadata_rule(key, value);
}

proof fn lemma_top_fields(members: Seq<(Seq<char>, JsonView)>)
    ensures
        top_fields(members) is Ok <==> forall|i: int|
            0 <= i < members.len() ==> request_field((#[trigger] members[i]).0, members[i].1),
    decreases members.len(),
{
    if members.len() > 0 {
        let front = members.drop_last();
        lemma_top_fields(front);
        let last = members[members.len() - 1];
        lemma_request_field(last.0, last.1);
        if top_fields(members) is Ok {
            assert forall|i: int| 0 <= i < members.len() implies request_field(
                (#[trigger] members[i]).0,
                members[i].1,
            ) by {
                if i < front.len() {
                    assert(front[i] == members[i]);
                }
            }
        } else if forall|i: int|
            0 <= i < members.len() ==> request_field((#[trigger] members[i]).0, members[i].1) {
            assert forall|i: int| 0 <= i < front.len() implies request_field(
                (#[trigger] front[i]).0,
                front[i].1,
            ) by {
                assert(front[i] == members[i]);
            }
            assert(request_field(last.0, last.1));
        }
    }
}

/// Law: a request is accepted exactly where it is an object that asks for a
/// stream, names a model and holds an input, and every field of it, at any
/// depth, is one that may stand there and holds what it may hold.
pub proof fn exactly_the_acceptable_requests_are_accepted(value: JsonView)
    ensures
        request_of(value) is Ok <==> {
            &&& value matches JsonView::Object(members)
            &&& holds(
                members,
                seq!["model"@, "input"@],
                |key: Seq<char>, value: JsonView| request_field(key, value),
            )
            &&& member_of(members, "stream"@) == Some(JsonView::Bool(true))
        },
{
    if let JsonView::Object(members) = value {
        lemma_top_fields(members);
        let needed = seq!["model"@, "input"@];
        assert(needed[0] == "model"@ && needed[1] == "input"@);
        if top_fields(members) is Ok {
            lemma_model_and_input(members);
        }
    }
}

/// The model and the input of accepted fields are kept, and the model is a
/// text.
proof fn lemma_model_and_input(members: Seq<(Seq<char>, JsonView)>)
    requires
        top_fields(members) is Ok,
    ensures
        ({
            let kept = top_fields(members)->Ok_0;
            &&& has_member(kept, "input"@) == has_member(members, "input"@)
            &&& has_member(kept, "model"@) == has_member(members, "model"@)
            &&& has_member(members, "model"@) ==> member_of(kept, "model"@)->0 is Text
        }),
{
    lemma_top_member(members, "model"@);
    lemma_top_member(members, "input"@);
    lemma_more_names();
    lemma_top_fields(members);
    lemma_member_index(members, "model"@, 0);
    let at = member_index(members, "model"@, 0);
    if at < members.len() {
        assert(request_field(members[at].0, members[at].1));
        reveal_strlit("stream");
        reveal_strlit("client_metadata");
        reveal_strlit("background");
        reveal_strlit("previous_response_id");
        reveal_strlit("conversation");
        reveal_strlit("prompt");
        reveal_strlit("store");
        reveal_strlit("parallel_tool_calls");
        reveal_strlit("service_tier");
        reveal_strlit("instructions");
        reveal_strlit("prompt_cache_key");
        reveal_strlit("model");
        reveal_strlit("input");
        reveal_strlit("tools");
        reveal_strlit("tool_choice");
        reveal_strlit("reasoning");
        reveal_strlit("text");
        reveal_strlit("prompt_cache_options");
        reveal_strlit("include");
        reveal_strlit("max_output_tokens");
        reveal_strlit("temperature");
        reveal_strlit("top_p");
        reveal_strlit("metadata");
        assert("stream"@.len() == 6 && "stream"@[0] == 's');
        assert("client_metadata"@.len() == 15);
        assert("background"@.len() == 10);
        assert("previous_response_id"@.len() == 20 && "previous_response_id"@[2] == 'e');
        assert("conversation"@.len() == 12 && "conversation"@[0] == 'c');
        assert("prompt"@.len() == 6 && "prompt"@[0] == 'p');
        assert("store"@.len() == 5 && "store"@[0] == 's');
        assert("parallel_tool_calls"@.len() == 19);
        assert("service_tier"@.len() == 12 && "service_tier"@[0] == 's');
        assert("instructions"@.len() == 12 && "instructions"@[0] == 'i');
        assert("prompt_cache_key"@.len() == 16);
        assert("model"@.len() == 5 && "model"@[0] == 'm');
        assert("input"@.len() == 5 && "input"@[0] == 'i');
        assert("tools"@.len() == 5 && "tools"@[0] == 't' && "tools"@[2] == 'o');
        assert("tool_choice"@.len() == 11 && "tool_choice"@[1] == 'o');
        assert("reasoning"@.len() == 9);
        assert("text"@.len() == 4);
        assert("prompt_cache_options"@.len() == 20 && "prompt_cache_options"@[2] == 'o');
        assert("include"@.len() == 7);
        assert("max_output_tokens"@.len() == 17);
        assert("temperature"@.len() == 11 && "temperature"@[1] == 'e');
        assert("top_p"@.len() == 5 && "top_p"@[0] == 't' && "top_p"@[2] == 'p');
        assert("metadata"@.len() == 8);
        assert(members[at].1 is Text);
    }
}

} // verus!
