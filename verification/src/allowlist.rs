//! Checking a request's values against the allowlist, and normalizing them.
//!
//! A value that passes comes out in normalized form: fields that are accepted
//! but stripped are gone, at any depth, and nothing else is rewritten.
use vstd::prelude::*;
use vstd::string::*;

use crate::json::{
    has_member, items_view, lemma_array_view, lemma_object_view, member, member_of, members_view,
    Json, JsonView, NumberView,
};
use crate::rejection::{
    hosted_tool, hosted_tool_view, invalid, invalid_view, is_empty, join, joined_path,
    missing_parameter, missing_view, rejected, unsupported_field, unsupported_field_view,
    Rejection, RejectionCode, RejectionView,
};
use crate::shapes::{
    accepted_values, choices_of, name_of, required_fields, required_of, rule_for, rule_of,
    shape_name, str_views, Rule, Shape,
};
use crate::text::{begins_with, decimal_text, push_decimal, str_eq};

verus! {

/// The places where an object says by its `type` what it is, and the entries
/// of the `include` list.
#[derive(Debug, Clone, Copy, PartialEq, Eq, Structural)]
pub enum Element {
    InputItem,
    /// A content part of a message.
    MessagePart,
    /// A content part of a tool's output.
    OutputPart,
    SummaryPart,
    ReasoningPart,
    Tool,
    /// A tool inside a namespace.
    NamespacedTool,
    CustomFormat,
    NamedChoice,
    OutputFormat,
    IncludeEntry,
}

/// The outcome of a check, with the values as they are seen.
pub open spec fn outcome(result: Result<Json, Rejection>) -> Result<JsonView, RejectionView> {
    match result {
        Ok(value) => Ok(value@),
        Err(rejection) => Err(rejection@),
    }
}

/// The texts with commas between them.
pub open spec fn comma_list(texts: Seq<Seq<char>>) -> Seq<char>
    decreases texts.len(),
{
    if texts.len() == 0 {
        Seq::empty()
    } else if texts.len() == 1 {
        texts[0]
    } else {
        comma_list(texts.drop_last()) + ", "@ + texts.last()
    }
}

/// The path of an element of an array.
pub open spec fn index_path(path: Seq<char>, index: nat) -> Seq<char> {
    path + "["@ + decimal_text(index) + "]"@
}

/// The content parts accepted at a place.
pub open spec fn parts_of(element: Element) -> Seq<Seq<char>> {
    if element is MessagePart {
        seq!["input_text"@, "output_text"@, "refusal"@, "input_image"@]
    } else {
        seq!["input_text"@, "input_image"@]
    }
}

/// What an object at a place says it is. An easy input message may leave out
/// its type.
pub open spec fn kind_of(
    element: Element,
    members: Seq<(Seq<char>, JsonView)>,
    path: Seq<char>,
) -> Result<Seq<char>, RejectionView> {
    match member_of(members, "type"@) {
        Some(JsonView::Text(kind)) => Ok(kind),
        Some(_) => Err(invalid_view(joined_path(path, "type"@), "must be a string"@)),
        None => if element is InputItem && has_member(members, "role"@) {
            Ok("message"@)
        } else {
            Err(missing_view(joined_path(path, "type"@)))
        },
    }
}

/// The shape an object of a kind has at a place.
pub open spec fn shape_of(element: Element, kind: Seq<char>, path: Seq<char>) -> Result<
    Shape,
    RejectionView,
> {
    let at = joined_path(path, "type"@);
    match element {
        Element::InputItem => if kind == "message"@ {
            Ok(Shape::Message)
        } else if kind == "reasoning"@ {
            Ok(Shape::ReasoningItem)
        } else if kind == "function_call"@ {
            Ok(Shape::FunctionCall)
        } else if kind == "function_call_output"@ {
            Ok(Shape::FunctionCallOutput)
        } else if kind == "custom_tool_call"@ {
            Ok(Shape::CustomToolCall)
        } else if kind == "custom_tool_call_output"@ {
            Ok(Shape::CustomToolCallOutput)
        } else if kind == "additional_tools"@ {
            Ok(Shape::AdditionalTools)
        } else {
            Err(
                rejected(
                    RejectionCode::UnsupportedInputItem,
                    at,
                    "Input items of type `"@ + kind
                        + "` are not supported. Accepted: message, reasoning, function_call, function_call_output, custom_tool_call, custom_tool_call_output, additional_tools."@,
                ),
            )
        },
        Element::MessagePart | Element::OutputPart => if !parts_of(element).contains(kind) {
            Err(
                rejected(
                    RejectionCode::UnsupportedInputItem,
                    at,
                    "Content parts of type `"@ + kind + "` are not supported here. Accepted: "@
                        + comma_list(parts_of(element)) + "."@,
                ),
            )
        } else if kind == "input_text"@ {
            Ok(Shape::InputText)
        } else if kind == "output_text"@ {
            Ok(Shape::OutputText)
        } else if kind == "refusal"@ {
            Ok(Shape::RefusalPart)
        } else {
            Ok(Shape::InputImage)
        },
        Element::SummaryPart => if kind == "summary_text"@ {
            Ok(Shape::SummaryText)
        } else {
            Err(invalid_view(at, "must be `summary_text`"@))
        },
        Element::ReasoningPart => if kind == "reasoning_text"@ {
            Ok(Shape::ReasoningText)
        } else {
            Err(invalid_view(at, "must be `reasoning_text`"@))
        },
        Element::Tool | Element::NamespacedTool => if kind == "function"@ {
            Ok(Shape::FunctionTool)
        } else if kind == "custom"@ {
            Ok(Shape::CustomTool)
        } else if kind == "namespace"@ {
            if element is Tool {
                Ok(Shape::NamespaceTool)
            } else {
                Err(invalid_view(at, "a namespace cannot contain another namespace"@))
            }
        } else {
            Err(hosted_tool_view(at, kind))
        },
        Element::CustomFormat => if kind == "text"@ {
            Ok(Shape::TextFormat)
        } else if kind == "grammar"@ {
            Ok(Shape::GrammarFormat)
        } else {
            Err(invalid_view(at, "must be `text` or `grammar`"@))
        },
        Element::NamedChoice => if kind == "function"@ || kind == "custom"@ {
            Ok(Shape::NamedToolChoice)
        } else {
            Err(
                invalid_view(
                    at,
                    "must be `auto`, `none`, `required`, or a function or custom tool"@,
                ),
            )
        },
        Element::OutputFormat => if kind == "text"@ || kind == "json_object"@ {
            Ok(Shape::PlainOutputFormat)
        } else if kind == "json_schema"@ {
            Ok(Shape::JsonSchemaFormat)
        } else {
            Err(invalid_view(at, "must be `text`, `json_object` or `json_schema`"@))
        },
        Element::IncludeEntry => Err(
            invalid_view(path, "only `reasoning.encrypted_content` may be included"@),
        ),
    }
}

/// The first member that is not a text, or the number of members.
pub open spec fn first_non_text(members: Seq<(Seq<char>, JsonView)>, from: int) -> int
    decreases members.len() - from,
{
    if from < 0 || from >= members.len() || !(members[from].1 is Text) {
        from
    } else {
        first_non_text(members, from + 1)
    }
}

/// The first required field that is not there.
pub open spec fn first_missing(
    required: Seq<Seq<char>>,
    members: Seq<(Seq<char>, JsonView)>,
    from: int,
) -> int
    decreases required.len() - from,
{
    if from < 0 || from >= required.len() || !has_member(members, required[from]) {
        from
    } else {
        first_missing(required, members, from + 1)
    }
}

/// The value where it passes, else that it is invalid.
pub open spec fn pass(ok: bool, value: JsonView, path: Seq<char>, what: Seq<char>) -> Result<
    JsonView,
    RejectionView,
> {
    if ok {
        Ok(value)
    } else {
        Err(invalid_view(path, what))
    }
}

/// A value checked against a rule: in normalized form, or refused.
pub open spec fn checked(rule: Rule, value: JsonView, path: Seq<char>) -> Result<
    JsonView,
    RejectionView,
>
    decreases value, 2nat,
{
    match rule {
        Rule::Strip => Ok(value),
        Rule::Text => pass(value is Text, value, path, "must be a string"@),
        Rule::NonEmptyText => pass(
            value matches JsonView::Text(text) && text.len() > 0,
            value,
            path,
            "must be a non-empty string"@,
        ),
        Rule::Bool => pass(value is Bool, value, path, "must be a boolean"@),
        Rule::BoolOrNull => pass(
            value is Bool || value is Null,
            value,
            path,
            "must be a boolean or null"@,
        ),
        Rule::AnyNumber => pass(value is Number, value, path, "must be a number"@),
        Rule::PositiveInteger => pass(
            value matches JsonView::Number(NumberView::Unsigned(n)) && n > 0,
            value,
            path,
            "must be a positive integer"@,
        ),
        Rule::AnyObject => pass(value is Object, value, path, "must be an object"@),
        Rule::NotDeferred => pass(
            value == JsonView::Bool(false),
            value,
            path,
            "deferred tools need `tool_search`, which QuotaMiser does not allow"@,
        ),
        Rule::InlineImage => match value {
            JsonView::Text(url) => if "data:"@.is_prefix_of(url) {
                Ok(value)
            } else {
                Err(
                    rejected(
                        RejectionCode::RemoteReference,
                        path,
                        "Only inline `data:` image URLs are accepted: a remote image could change between counting and generation."@,
                    ),
                )
            },
            _ => Err(invalid_view(path, "must be a string"@)),
        },
        Rule::OneOf(choice) => pass(
            value matches JsonView::Text(text) && choices_of(choice).contains(text),
            value,
            path,
            "must be one of: "@ + comma_list(choices_of(choice)),
        ),
        Rule::Input => match value {
            JsonView::Text(_) => Ok(value),
            JsonView::Array(items) => as_array(checked_items(Element::InputItem, items, path)),
            _ => Err(invalid_view(path, "must be a string or an array of input items"@)),
        },
        Rule::MessageContent => match value {
            JsonView::Text(_) => Ok(value),
            JsonView::Array(items) => as_array(checked_items(Element::MessagePart, items, path)),
            _ => Err(invalid_view(path, "must be a string or an array of content parts"@)),
        },
        Rule::ToolOutput => match value {
            JsonView::Text(_) => Ok(value),
            JsonView::Array(items) => as_array(checked_items(Element::OutputPart, items, path)),
            _ => Err(invalid_view(path, "must be a string or an array of content parts"@)),
        },
        Rule::SummaryParts => match value {
            JsonView::Array(items) => as_array(checked_items(Element::SummaryPart, items, path)),
            _ => Err(invalid_view(path, "must be an array"@)),
        },
        Rule::ReasoningParts => match value {
            JsonView::Array(items) => as_array(checked_items(Element::ReasoningPart, items, path)),
            _ => Err(invalid_view(path, "must be an array"@)),
        },
        Rule::ToolList => match value {
            JsonView::Array(items) => as_array(checked_items(Element::Tool, items, path)),
            _ => Err(invalid_view(path, "must be an array"@)),
        },
        Rule::NamespaceMembers => match value {
            JsonView::Array(items) => as_array(checked_items(Element::NamespacedTool, items, path)),
            _ => Err(invalid_view(path, "must be an array"@)),
        },
        Rule::IncludeList => match value {
            JsonView::Array(items) => as_array(checked_items(Element::IncludeEntry, items, path)),
            _ => Err(invalid_view(path, "must be an array"@)),
        },
        Rule::CustomFormat => checked_element(Element::CustomFormat, value, path),
        Rule::OutputFormat => checked_element(Element::OutputFormat, value, path),
        Rule::ToolChoice => match value {
            JsonView::Text(choice) => pass(
                choice == "auto"@ || choice == "none"@ || choice == "required"@,
                value,
                path,
                "must be `auto`, `none`, `required`, or a function or custom tool"@,
            ),
            _ => checked_element(Element::NamedChoice, value, path),
        },
        Rule::Metadata => match value {
            JsonView::Object(members) => {
                let at = first_non_text(members, 0);
                if at < members.len() {
                    Err(invalid_view(joined_path(path, members[at].0), "must be a string"@))
                } else {
                    Ok(value)
                }
            },
            _ => Err(invalid_view(path, "must be an object of strings"@)),
        },
        Rule::ObjectOf(shape) => match value {
            JsonView::Object(members) => as_object(checked_shape(shape, members, path)),
            _ => Err(invalid_view(path, "must be an object"@)),
        },
    }
}

pub open spec fn as_array(items: Result<Seq<JsonView>, RejectionView>) -> Result<
    JsonView,
    RejectionView,
> {
    match items {
        Ok(items) => Ok(JsonView::Array(items)),
        Err(rejection) => Err(rejection),
    }
}

pub open spec fn as_object(members: Result<Seq<(Seq<char>, JsonView)>, RejectionView>) -> Result<
    JsonView,
    RejectionView,
> {
    match members {
        Ok(members) => Ok(JsonView::Object(members)),
        Err(rejection) => Err(rejection),
    }
}

/// One element at a place.
pub open spec fn checked_element(element: Element, value: JsonView, path: Seq<char>) -> Result<
    JsonView,
    RejectionView,
>
    decreases value, 1nat,
{
    if element is IncludeEntry {
        pass(
            value == JsonView::Text("reasoning.encrypted_content"@),
            value,
            path,
            "only `reasoning.encrypted_content` may be included"@,
        )
    } else {
        match value {
            JsonView::Object(members) => match kind_of(element, members, path) {
                Err(rejection) => Err(rejection),
                Ok(kind) => match shape_of(element, kind, path) {
                    Err(rejection) => Err(rejection),
                    Ok(shape) => as_object(checked_shape(shape, members, path)),
                },
            },
            _ => Err(invalid_view(path, "must be an object"@)),
        }
    }
}

/// The elements of an array; the first that is refused decides.
pub open spec fn checked_items(element: Element, items: Seq<JsonView>, path: Seq<char>) -> Result<
    Seq<JsonView>,
    RejectionView,
>
    decreases items, 0nat,
{
    if items.len() == 0 {
        Ok(Seq::empty())
    } else {
        match checked_items(element, items.drop_last(), path) {
            Err(rejection) => Err(rejection),
            Ok(done) => match checked_element(
                element,
                items.last(),
                index_path(path, (items.len() - 1) as nat),
            ) {
                Err(rejection) => Err(rejection),
                Ok(value) => Ok(done.push(value)),
            },
        }
    }
}

/// The fields of an object against its shape; the first that is refused
/// decides.
pub open spec fn checked_fields(
    shape: Shape,
    members: Seq<(Seq<char>, JsonView)>,
    path: Seq<char>,
) -> Result<Seq<(Seq<char>, JsonView)>, RejectionView>
    decreases members, 0nat,
{
    if members.len() == 0 {
        Ok(Seq::empty())
    } else {
        match checked_fields(shape, members.drop_last(), path) {
            Err(rejection) => Err(rejection),
            Ok(kept) => {
                let key = members.last().0;
                match rule_of(shape, key) {
                    None => Err(
                        unsupported_field_view(joined_path(path, key), shape_name(shape), key),
                    ),
                    Some(rule) => if rule is Strip {
                        Ok(kept)
                    } else {
                        match checked(rule, members.last().1, joined_path(path, key)) {
                            Err(rejection) => Err(rejection),
                            Ok(value) => Ok(kept.push((key, value))),
                        }
                    },
                }
            },
        }
    }
}

/// An object against its shape: its fields, and then that every required one
/// is there.
pub open spec fn checked_shape(
    shape: Shape,
    members: Seq<(Seq<char>, JsonView)>,
    path: Seq<char>,
) -> Result<Seq<(Seq<char>, JsonView)>, RejectionView>
    decreases members, 1nat,
{
    match checked_fields(shape, members, path) {
        Err(rejection) => Err(rejection),
        Ok(kept) => {
            let required = required_of(shape);
            let at = first_missing(required, kept, 0);
            if at < required.len() {
                Err(missing_view(joined_path(path, required[at])))
            } else {
                Ok(kept)
            }
        },
    }
}

// ---------------------------------------------------------------------------
// The checks themselves.

fn comma_join(texts: &Vec<&'static str>) -> (out: String)
    ensures
        out@ == comma_list(str_views(texts@)),
{
    let ghost all = str_views(texts@);
    let mut out = String::new();
    let mut i: usize = 0;
    while i < texts.len()
        invariant
            i <= texts@.len(),
            all == str_views(texts@),
            out@ == comma_list(all.take(i as int)),
        decreases texts.len() - i,
    {
        if i > 0 {
            out.push_str(", ");
        }
        out.push_str(texts[i]);
        i = i + 1;
        assert(all.take(i as int).drop_last() =~= all.take(i - 1));
        assert(all.take(i as int).last() == texts@[i - 1]@);
        assert(i == 1 ==> out@ =~= all.take(1)[0]);
    }
    assert(all.take(all.len() as int) =~= all);
    out
}

fn holds_text(texts: &Vec<&'static str>, text: &str) -> (found: bool)
    ensures
        found == str_views(texts@).contains(text@),
{
    let ghost all = str_views(texts@);
    let mut i: usize = 0;
    while i < texts.len()
        invariant
            i <= texts@.len(),
            all == str_views(texts@),
            forall|k: int| 0 <= k < i ==> (#[trigger] all[k]) != text@,
        decreases texts.len() - i,
    {
        if str_eq(texts[i], text) {
            assert(all[i as int] == text@);
            return true;
        }
        i = i + 1;
    }
    false
}

/// The path of an element of an array.
fn element_path(path: &str, index: usize) -> (out: String)
    ensures
        out@ == index_path(path@, index as nat),
{
    let mut out = path.to_owned();
    out.push_str("[");
    push_decimal(&mut out, index as u128);
    out.push_str("]");
    out
}

/// What an object at a place says it is.
fn find_kind(element: Element, members: &Vec<(String, Json)>, path: &str) -> (kind: Result<
    String,
    Rejection,
>)
    ensures
        match kind {
            Ok(text) => kind_of(element, members_view(members@), path@) == Ok::<
                Seq<char>,
                RejectionView,
            >(text@),
            Err(rejection) => kind_of(element, members_view(members@), path@) == Err::<
                Seq<char>,
                RejectionView,
            >(rejection@),
        },
{
    match member(members, "type") {
        Some(Json::Text(kind)) => Ok(kind.clone()),
        Some(_) => Err(invalid(join(path, "type").as_str(), "must be a string")),
        None => {
            if matches!(element, Element::InputItem) && member(members, "role").is_some() {
                Ok(String::from_str("message"))
            } else {
                Err(missing_parameter(join(path, "type").as_str()))
            }
        },
    }
}

/// The content parts accepted at a place.
fn accepted_parts(element: Element) -> (parts: Vec<&'static str>)
    ensures
        str_views(parts@) == parts_of(element),
{
    let parts: Vec<&'static str> = if matches!(element, Element::MessagePart) {
        vec!["input_text", "output_text", "refusal", "input_image"]
    } else {
        vec!["input_text", "input_image"]
    };
    assert(str_views(parts@) =~= parts_of(element));
    parts
}

/// The shape an object of a kind has at a place.
fn pick_shape(element: Element, kind: &str, path: &str) -> (shape: Result<Shape, Rejection>)
    ensures
        match shape {
            Ok(found) => shape_of(element, kind@, path@) == Ok::<Shape, RejectionView>(found),
            Err(rejection) => shape_of(element, kind@, path@) == Err::<Shape, RejectionView>(
                rejection@,
            ),
        },
{
    let at = join(path, "type");
    match element {
        Element::InputItem => {
            if str_eq(kind, "message") {
                Ok(Shape::Message)
            } else if str_eq(kind, "reasoning") {
                Ok(Shape::ReasoningItem)
            } else if str_eq(kind, "function_call") {
                Ok(Shape::FunctionCall)
            } else if str_eq(kind, "function_call_output") {
                Ok(Shape::FunctionCallOutput)
            } else if str_eq(kind, "custom_tool_call") {
                Ok(Shape::CustomToolCall)
            } else if str_eq(kind, "custom_tool_call_output") {
                Ok(Shape::CustomToolCallOutput)
            } else if str_eq(kind, "additional_tools") {
                Ok(Shape::AdditionalTools)
            } else {
                let mut message = String::from_str("Input items of type `");
                message.push_str(kind);
                message.push_str(
                    "` are not supported. Accepted: message, reasoning, function_call, function_call_output, custom_tool_call, custom_tool_call_output, additional_tools.",
                );
                Err(
                    Rejection::new(
                        RejectionCode::UnsupportedInputItem,
                        Some(at.as_str()),
                        message,
                    ),
                )
            }
        },
        Element::MessagePart | Element::OutputPart => {
            let parts = accepted_parts(element);
            if !holds_text(&parts, kind) {
                let mut message = String::from_str("Content parts of type `");
                message.push_str(kind);
                message.push_str("` are not supported here. Accepted: ");
                message.push_str(comma_join(&parts).as_str());
                message.push_str(".");
                Err(
                    Rejection::new(
                        RejectionCode::UnsupportedInputItem,
                        Some(at.as_str()),
                        message,
                    ),
                )
            } else if str_eq(kind, "input_text") {
                Ok(Shape::InputText)
            } else if str_eq(kind, "output_text") {
                Ok(Shape::OutputText)
            } else if str_eq(kind, "refusal") {
                Ok(Shape::RefusalPart)
            } else {
                Ok(Shape::InputImage)
            }
        },
        Element::SummaryPart => {
            if str_eq(kind, "summary_text") {
                Ok(Shape::SummaryText)
            } else {
                Err(invalid(at.as_str(), "must be `summary_text`"))
            }
        },
        Element::ReasoningPart => {
            if str_eq(kind, "reasoning_text") {
                Ok(Shape::ReasoningText)
            } else {
                Err(invalid(at.as_str(), "must be `reasoning_text`"))
            }
        },
        Element::Tool | Element::NamespacedTool => {
            if str_eq(kind, "function") {
                Ok(Shape::FunctionTool)
            } else if str_eq(kind, "custom") {
                Ok(Shape::CustomTool)
            } else if str_eq(kind, "namespace") {
                if matches!(element, Element::Tool) {
                    Ok(Shape::NamespaceTool)
                } else {
                    Err(invalid(at.as_str(), "a namespace cannot contain another namespace"))
                }
            } else {
                Err(hosted_tool(at.as_str(), kind))
            }
        },
        Element::CustomFormat => {
            if str_eq(kind, "text") {
                Ok(Shape::TextFormat)
            } else if str_eq(kind, "grammar") {
                Ok(Shape::GrammarFormat)
            } else {
                Err(invalid(at.as_str(), "must be `text` or `grammar`"))
            }
        },
        Element::NamedChoice => {
            if str_eq(kind, "function") || str_eq(kind, "custom") {
                Ok(Shape::NamedToolChoice)
            } else {
                Err(
                    invalid(
                        at.as_str(),
                        "must be `auto`, `none`, `required`, or a function or custom tool",
                    ),
                )
            }
        },
        Element::OutputFormat => {
            if str_eq(kind, "text") || str_eq(kind, "json_object") {
                Ok(Shape::PlainOutputFormat)
            } else if str_eq(kind, "json_schema") {
                Ok(Shape::JsonSchemaFormat)
            } else {
                Err(invalid(at.as_str(), "must be `text`, `json_object` or `json_schema`"))
            }
        },
        Element::IncludeEntry => Err(
            invalid(path, "only `reasoning.encrypted_content` may be included"),
        ),
    }
}

/// A copy of a value that passes, else that it is invalid.
fn keep(ok: bool, value: &Json, path: &str, what: &str) -> (result: Result<Json, Rejection>)
    ensures
        outcome(result) == pass(ok, value@, path@, what@),
{
    if ok {
        Ok(value.copy())
    } else {
        Err(invalid(path, what))
    }
}

/// A member that is not a text, where there is one.
fn find_non_text(members: &Vec<(String, Json)>) -> (found: Option<usize>)
    ensures
        match found {
            Some(i) => i < members@.len() && first_non_text(members_view(members@), 0) == i,
            None => first_non_text(members_view(members@), 0) == members@.len(),
        },
{
    let ghost all = members_view(members@);
    let mut i: usize = 0;
    while i < members.len()
        invariant
            i <= members@.len(),
            all == members_view(members@),
            first_non_text(all, i as int) == first_non_text(all, 0),
        decreases members.len() - i,
    {
        assert(all[i as int].1 == members@[i as int].1@);
        if members[i].1.as_text().is_none() {
            return Some(i);
        }
        i = i + 1;
    }
    None
}

/// A required field that is not there, where there is one.
fn find_missing(required: &Vec<&'static str>, members: &Vec<(String, Json)>) -> (found: Option<
    usize,
>)
    ensures
        match found {
            Some(i) => i < required@.len() && first_missing(
                str_views(required@),
                members_view(members@),
                0,
            ) == i,
            None => first_missing(str_views(required@), members_view(members@), 0)
                == required@.len(),
        },
{
    let ghost names = str_views(required@);
    let ghost all = members_view(members@);
    let mut i: usize = 0;
    while i < required.len()
        invariant
            i <= required@.len(),
            names == str_views(required@),
            all == members_view(members@),
            first_missing(names, all, i as int) == first_missing(names, all, 0),
        decreases required.len() - i,
    {
        assert(names[i as int] == required@[i as int]@);
        if member(members, required[i]).is_none() {
            return Some(i);
        }
        i = i + 1;
    }
    None
}

/// Checks a value against a rule and normalizes it.
pub fn check(rule: Rule, value: &Json, path: &str) -> (result: Result<Json, Rejection>)
    ensures
        outcome(result) == checked(rule, value@, path@),
    decreases value, 2int,
{
    proof {
        match value {
            Json::Array(items) => lemma_array_view(*items),
            Json::Object(members) => lemma_object_view(*members),
            _ => {},
        }
    }
    match rule {
        Rule::Strip => Ok(value.copy()),
        Rule::Text => keep(value.as_text().is_some(), value, path, "must be a string"),
        Rule::NonEmptyText => {
            let ok = match value.as_text() {
                Some(text) => !is_empty(text),
                None => false,
            };
            keep(ok, value, path, "must be a non-empty string")
        },
        Rule::Bool => keep(matches!(value, Json::Bool(_)), value, path, "must be a boolean"),
        Rule::BoolOrNull => keep(
            matches!(value, Json::Bool(_) | Json::Null),
            value,
            path,
            "must be a boolean or null",
        ),
        Rule::AnyNumber => keep(matches!(value, Json::Number(_)), value, path, "must be a number"),
        Rule::PositiveInteger => {
            let ok = match value.as_u64() {
                Some(n) => n > 0,
                None => false,
            };
            keep(ok, value, path, "must be a positive integer")
        },
        Rule::AnyObject => keep(matches!(value, Json::Object(_)), value, path, "must be an object"),
        Rule::NotDeferred => keep(
            matches!(value, Json::Bool(false)),
            value,
            path,
            "deferred tools need `tool_search`, which QuotaMiser does not allow",
        ),
        Rule::InlineImage => match value {
            Json::Text(url) => {
                if begins_with(url.as_str(), "data:") {
                    Ok(value.copy())
                } else {
                    Err(
                        Rejection::new(
                            RejectionCode::RemoteReference,
                            Some(path),
                            String::from_str(
                                "Only inline `data:` image URLs are accepted: a remote image could change between counting and generation.",
                            ),
                        ),
                    )
                }
            },
            _ => Err(invalid(path, "must be a string")),
        },
        Rule::OneOf(choice) => {
            let accepted = accepted_values(choice);
            let ok = match value.as_text() {
                Some(text) => holds_text(&accepted, text),
                None => false,
            };
            let mut what = String::from_str("must be one of: ");
            what.push_str(comma_join(&accepted).as_str());
            keep(ok, value, path, what.as_str())
        },
        Rule::Input => match value {
            Json::Text(_) => Ok(value.copy()),
            Json::Array(items) => check_items(Element::InputItem, items, path),
            _ => Err(invalid(path, "must be a string or an array of input items")),
        },
        Rule::MessageContent => match value {
            Json::Text(_) => Ok(value.copy()),
            Json::Array(items) => check_items(Element::MessagePart, items, path),
            _ => Err(invalid(path, "must be a string or an array of content parts")),
        },
        Rule::ToolOutput => match value {
            Json::Text(_) => Ok(value.copy()),
            Json::Array(items) => check_items(Element::OutputPart, items, path),
            _ => Err(invalid(path, "must be a string or an array of content parts")),
        },
        Rule::SummaryParts => match value {
            Json::Array(items) => check_items(Element::SummaryPart, items, path),
            _ => Err(invalid(path, "must be an array")),
        },
        Rule::ReasoningParts => match value {
            Json::Array(items) => check_items(Element::ReasoningPart, items, path),
            _ => Err(invalid(path, "must be an array")),
        },
        Rule::ToolList => match value {
            Json::Array(items) => check_items(Element::Tool, items, path),
            _ => Err(invalid(path, "must be an array")),
        },
        Rule::NamespaceMembers => match value {
            Json::Array(items) => check_items(Element::NamespacedTool, items, path),
            _ => Err(invalid(path, "must be an array")),
        },
        Rule::IncludeList => match value {
            Json::Array(items) => check_items(Element::IncludeEntry, items, path),
            _ => Err(invalid(path, "must be an array")),
        },
        Rule::CustomFormat => check_element(Element::CustomFormat, value, path),
        Rule::OutputFormat => check_element(Element::OutputFormat, value, path),
        Rule::ToolChoice => match value {
            Json::Text(choice) => {
                let text = choice.as_str();
                keep(
                    str_eq(text, "auto") || str_eq(text, "none") || str_eq(text, "required"),
                    value,
                    path,
                    "must be `auto`, `none`, `required`, or a function or custom tool",
                )
            },
            _ => check_element(Element::NamedChoice, value, path),
        },
        Rule::Metadata => match value {
            Json::Object(members) => match find_non_text(members) {
                Some(i) => Err(
                    invalid(join(path, members[i].0.as_str()).as_str(), "must be a string"),
                ),
                None => Ok(value.copy()),
            },
            _ => Err(invalid(path, "must be an object of strings")),
        },
        Rule::ObjectOf(shape) => match value {
            Json::Object(members) => apply(shape, members, path),
            _ => Err(invalid(path, "must be an object")),
        },
    }
}

/// Checks one element at a place.
fn check_element(element: Element, value: &Json, path: &str) -> (result: Result<Json, Rejection>)
    ensures
        outcome(result) == checked_element(element, value@, path@),
    decreases value, 1int,
{
    if matches!(element, Element::IncludeEntry) {
        let ok = match value.as_text() {
            Some(text) => str_eq(text, "reasoning.encrypted_content"),
            None => false,
        };
        return keep(
            ok,
            value,
            path,
            "only `reasoning.encrypted_content` may be included",
        );
    }
    match value {
        Json::Object(members) => {
            proof {
                lemma_object_view(*members);
            }
            match find_kind(element, members, path) {
                Err(rejection) => Err(rejection),
                Ok(kind) => match pick_shape(element, kind.as_str(), path) {
                    Err(rejection) => Err(rejection),
                    Ok(shape) => apply(shape, members, path),
                },
            }
        },
        _ => Err(invalid(path, "must be an object")),
    }
}

/// A refusal among the first elements refuses them all.
proof fn lemma_items_fail(element: Element, items: Seq<JsonView>, path: Seq<char>, n: int)
    requires
        0 <= n <= items.len(),
        checked_items(element, items.take(n), path) is Err,
    ensures
        checked_items(element, items, path) == checked_items(element, items.take(n), path),
    decreases items.len() - n,
{
    if n < items.len() {
        assert(items.take(n + 1).drop_last() =~= items.take(n));
        lemma_items_fail(element, items, path, n + 1);
    } else {
        assert(items.take(n) =~= items);
    }
}

/// Checks the elements of an array; the first that is refused decides.
fn check_items(element: Element, items: &Vec<Json>, path: &str) -> (result: Result<
    Json,
    Rejection,
>)
    ensures
        outcome(result) == as_array(checked_items(element, items_view(items@), path@)),
    decreases items, 0int,
{
    let ghost all = items_view(items@);
    let mut out: Vec<Json> = Vec::new();
    assert(all.take(0) =~= Seq::empty());
    assert(items_view(out@) =~= Seq::empty());
    let mut i: usize = 0;
    while i < items.len()
        invariant
            i <= items@.len(),
            all == items_view(items@),
            checked_items(element, all.take(i as int), path@) == Ok::<Seq<JsonView>, RejectionView>(
                items_view(out@),
            ),
        decreases items.len() - i,
    {
        let ghost done = items_view(out@);
        proof {
            assert(decreases_to!(*items => items@[i as int]));
            assert(all.take(i + 1).drop_last() =~= all.take(i as int));
            assert(all.take(i + 1).last() == items@[i as int]@);
        }
        match check_element(element, &items[i], element_path(path, i).as_str()) {
            Err(rejection) => {
                proof {
                    lemma_items_fail(element, all, path@, i + 1);
                }
                return Err(rejection);
            },
            Ok(value) => {
                let ghost view = value@;
                out.push(value);
                assert(items_view(out@) =~= done.push(view));
            },
        }
        i = i + 1;
    }
    proof {
        assert(all.take(all.len() as int) =~= all);
        lemma_array_view(out);
    }
    Ok(Json::Array(out))
}

/// A refusal among the first fields refuses the object.
proof fn lemma_fields_fail(
    shape: Shape,
    members: Seq<(Seq<char>, JsonView)>,
    path: Seq<char>,
    n: int,
)
    requires
        0 <= n <= members.len(),
        checked_fields(shape, members.take(n), path) is Err,
    ensures
        checked_fields(shape, members, path) == checked_fields(shape, members.take(n), path),
    decreases members.len() - n,
{
    if n < members.len() {
        assert(members.take(n + 1).drop_last() =~= members.take(n));
        lemma_fields_fail(shape, members, path, n + 1);
    } else {
        assert(members.take(n) =~= members);
    }
}

/// Checks an object against its shape and normalizes it.
fn apply(shape: Shape, members: &Vec<(String, Json)>, path: &str) -> (result: Result<
    Json,
    Rejection,
>)
    ensures
        outcome(result) == as_object(checked_shape(shape, members_view(members@), path@)),
    decreases members, 1int,
{
    let ghost all = members_view(members@);
    let mut kept: Vec<(String, Json)> = Vec::new();
    assert(all.take(0) =~= Seq::empty());
    assert(members_view(kept@) =~= Seq::empty());
    let mut i: usize = 0;
    while i < members.len()
        invariant
            i <= members@.len(),
            all == members_view(members@),
            checked_fields(shape, all.take(i as int), path@) == Ok::<
                Seq<(Seq<char>, JsonView)>,
                RejectionView,
            >(members_view(kept@)),
        decreases members.len() - i,
    {
        let ghost done = members_view(kept@);
        let field = &members[i];
        let key = field.0.as_str();
        let field_path = join(path, key);
        proof {
            assert(decreases_to!(*members => members@[i as int]));
            assert(decreases_to!(members@[i as int] => members@[i as int].1));
            assert(all.take(i + 1).drop_last() =~= all.take(i as int));
            assert(all.take(i + 1).last() == (field.0@, field.1@));
        }
        match rule_for(shape, key) {
            None => {
                proof {
                    lemma_fields_fail(shape, all, path@, i + 1);
                }
                return Err(unsupported_field(field_path.as_str(), name_of(shape), key));
            },
            Some(Rule::Strip) => {},
            Some(rule) => match check(rule, &field.1, field_path.as_str()) {
                Err(rejection) => {
                    proof {
                        lemma_fields_fail(shape, all, path@, i + 1);
                    }
                    return Err(rejection);
                },
                Ok(value) => {
                    let ghost view = value@;
                    kept.push((field.0.clone(), value));
                    assert(members_view(kept@) =~= done.push((field.0@, view)));
                },
            },
        }
        i = i + 1;
    }
    assert(all.take(all.len() as int) =~= all);
    let required = required_fields(shape);
    match find_missing(&required, &kept) {
        Some(at) => Err(missing_parameter(join(path, required[at]).as_str())),
        None => {
            proof {
                lemma_object_view(kept);
            }
            Ok(Json::Object(kept))
        },
    }
}

} // verus!
