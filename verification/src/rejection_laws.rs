//! What a request is refused for: which of its fields the refusal names, and
//! with which code.
use vstd::prelude::*;

use crate::allowlist::{
    checked, checked_element, checked_fields, checked_items, checked_shape, first_missing,
    first_non_text, index_path, kind_of, Element,
};
use crate::json::{has_member, member_of, JsonView};
use crate::rejection::{joined_path, RejectionCode, RejectionView};
use crate::request::{lemma_top_fail, request_of, settled_request, top_fields, top_outcome};
use crate::shapes::{required_of, rule_of, Rule, Shape};
use crate::text::decimal_text;

verus! {

/// A refusal of what stands at a path, or below it.
pub open spec fn stands_below(rejection: RejectionView, path: Seq<char>) -> bool {
    rejection.param matches Some(at) && path.is_prefix_of(at)
}

/// A refusal of what stands at a path, with a code.
pub open spec fn refuses_at(
    rejection: RejectionView,
    code: RejectionCode,
    path: Seq<char>,
) -> bool {
    rejection.code == code && rejection.param == Some(path)
}

/// The field of an object at a path.
pub open spec fn field_at(path: Seq<char>, key: Seq<char>) -> Seq<char> {
    path + seq!['.'] + key
}

proof fn lemma_field_at(path: Seq<char>, key: Seq<char>)
    requires
        path.len() > 0,
    ensures
        joined_path(path, key) == field_at(path, key),
        path.is_prefix_of(joined_path(path, key)),
{
    reveal_strlit(".");
    assert("."@ =~= seq!['.']);
}

// ---------------------------------------------------------------------------
// Where a refusal points.

proof fn lemma_rule_below(rule: Rule, value: JsonView, path: Seq<char>)
    requires
        path.len() > 0,
    ensures
        checked(rule, value, path) matches Err(rejection) ==> stands_below(rejection, path),
    decreases value, 2nat,
{
    match value {
        JsonView::Array(items) => {
            lemma_items_below(Element::InputItem, items, path);
            lemma_items_below(Element::MessagePart, items, path);
            lemma_items_below(Element::OutputPart, items, path);
            lemma_items_below(Element::SummaryPart, items, path);
            lemma_items_below(Element::ReasoningPart, items, path);
            lemma_items_below(Element::Tool, items, path);
            lemma_items_below(Element::NamespacedTool, items, path);
            lemma_items_below(Element::IncludeEntry, items, path);
        },
        JsonView::Object(members) => {
            if let Rule::ObjectOf(shape) = rule {
                lemma_shape_below(shape, members, path);
            }
            let at = first_non_text(members, 0);
            lemma_field_at(path, members[at].0);
        },
        _ => {},
    }
    lemma_element_below(Element::CustomFormat, value, path);
    lemma_element_below(Element::OutputFormat, value, path);
    lemma_element_below(Element::NamedChoice, value, path);
}

proof fn lemma_element_below(element: Element, value: JsonView, path: Seq<char>)
    requires
        path.len() > 0,
    ensures
        checked_element(element, value, path) matches Err(rejection) ==> stands_below(
            rejection,
            path,
        ),
    decreases value, 1nat,
{
    lemma_field_at(path, "type"@);
    if let JsonView::Object(members) = value {
        if let Ok(kind) = kind_of(element, members, path) {
            if let Ok(shape) = crate::allowlist::shape_of(element, kind, path) {
                lemma_shape_below(shape, members, path);
            }
        }
    }
}

proof fn lemma_items_below(element: Element, items: Seq<JsonView>, path: Seq<char>)
    requires
        path.len() > 0,
    ensures
        checked_items(element, items, path) matches Err(rejection) ==> stands_below(
            rejection,
            path,
        ),
    decreases items, 0nat,
{
    if items.len() > 0 {
        lemma_items_below(element, items.drop_last(), path);
        let at = index_path(path, (items.len() - 1) as nat);
        lemma_element_below(element, items.last(), at);
        assert(path.is_prefix_of(at));
    }
}

proof fn lemma_fields_below(shape: Shape, members: Seq<(Seq<char>, JsonView)>, path: Seq<char>)
    requires
        path.len() > 0,
    ensures
        checked_fields(shape, members, path) matches Err(rejection) ==> stands_below(
            rejection,
            path,
        ),
    decreases members, 0nat,
{
    if members.len() > 0 {
        lemma_fields_below(shape, members.drop_last(), path);
        let key = members.last().0;
        lemma_field_at(path, key);
        if let Some(rule) = rule_of(shape, key) {
            lemma_rule_below(rule, members.last().1, joined_path(path, key));
        }
    }
}

proof fn lemma_shape_below(shape: Shape, members: Seq<(Seq<char>, JsonView)>, path: Seq<char>)
    requires
        path.len() > 0,
    ensures
        checked_shape(shape, members, path) matches Err(rejection) ==> stands_below(
            rejection,
            path,
        ),
    decreases members, 1nat,
{
    lemma_fields_below(shape, members, path);
    if let Ok(kept) = checked_fields(shape, members, path) {
        let required = required_of(shape);
        let at = first_missing(required, kept, 0);
        lemma_field_at(path, required[at]);
    }
}

/// Law: a field that is refused is refused at the field, or at something below
/// it.
pub proof fn a_refusal_points_into_the_field_refused(key: Seq<char>, value: JsonView)
    requires
        key.len() > 0,
    ensures
        top_outcome(key, value) matches Err(rejection) ==> stands_below(rejection, key),
{
    if let crate::request::TopRule::Keep(rule) = crate::request::top_rule(key) {
        lemma_rule_below(rule, value, key);
    }
    if let crate::request::TopRule::Drop(rule) = crate::request::top_rule(key) {
        lemma_rule_below(rule, value, key);
    }
}

// ---------------------------------------------------------------------------
// Which refusal is given.

proof fn lemma_first_ok(members: Seq<(Seq<char>, JsonView)>, n: int)
    requires
        0 <= n <= members.len(),
        forall|i: int|
            0 <= i < n ==> top_outcome((#[trigger] members[i]).0, members[i].1) is Ok,
    ensures
        top_fields(members.take(n)) is Ok,
    decreases n,
{
    if n > 0 {
        lemma_first_ok(members, n - 1);
        assert(members.take(n).drop_last() =~= members.take(n - 1));
        assert(members.take(n).last() == members[n - 1]);
    }
}

/// Law: of the fields of a request that are refused, the first decides what the
/// request is refused for.
pub proof fn the_first_field_refused_decides(
    members: Seq<(Seq<char>, JsonView)>,
    n: int,
    rejection: RejectionView,
)
    requires
        0 <= n < members.len(),
        top_outcome(members[n].0, members[n].1) == Err::<Option<JsonView>, RejectionView>(
            rejection,
        ),
        forall|i: int|
            0 <= i < n ==> top_outcome((#[trigger] members[i]).0, members[i].1) is Ok,
    ensures
        request_of(JsonView::Object(members)) == Err::<crate::request::RequestView, RejectionView>(
            rejection,
        ),
{
    lemma_first_ok(members, n);
    let upto = members.take(n + 1);
    assert(upto.drop_last() =~= members.take(n));
    assert(upto.last() == members[n]);
    lemma_top_fail(members, n + 1);
}

/// Law: a request whose fields are all in order is refused for its stream,
/// then for its model, then for its input: as missing where it is not there,
/// and as invalid where a stream is anything but asked for.
pub proof fn what_is_missing_is_named_in_order(
    kept: Seq<(Seq<char>, JsonView)>,
    stream: Option<JsonView>,
)
    requires
        member_of(kept, "model"@) matches Some(model) ==> model is Text,
    ensures
        match settled_request(kept, stream) {
            Ok(request) => stream == Some(JsonView::Bool(true)) && member_of(kept, "model"@)
                == Some(JsonView::Text(request.model)) && has_member(kept, "input"@),
            Err(rejection) => if stream is None {
                refuses_at(rejection, RejectionCode::MissingParameter, "stream"@)
            } else if stream != Some(JsonView::Bool(true)) {
                refuses_at(rejection, RejectionCode::InvalidValue, "stream"@)
            } else if member_of(kept, "model"@) is None {
                refuses_at(rejection, RejectionCode::MissingParameter, "model"@)
            } else {
                !has_member(kept, "input"@) && refuses_at(
                    rejection,
                    RejectionCode::MissingParameter,
                    "input"@,
                )
            },
        },
{
}

/// Law: what is no object is no request, and no field of it is to blame.
pub proof fn only_an_object_is_a_request(value: JsonView)
    ensures
        !(value is Object) ==> (request_of(value) matches Err(rejection) && rejection.code
            == RejectionCode::InvalidJson && rejection.param is None),
{
}

// ---------------------------------------------------------------------------
// The codes.

/// The fields that may stand in a request, though some only as nothing.
pub open spec fn request_fields() -> Seq<Seq<char>> {
    seq![
        "model"@,
        "input"@,
        "instructions"@,
        "prompt_cache_key"@,
        "tools"@,
        "tool_choice"@,
        "parallel_tool_calls"@,
        "reasoning"@,
        "text"@,
        "include"@,
        "max_output_tokens"@,
        "temperature"@,
        "top_p"@,
        "metadata"@,
        "stream"@,
        "background"@,
        "store"@,
        "service_tier"@,
        "prompt_cache_options"@,
        "client_metadata"@,
        "previous_response_id"@,
        "conversation"@,
        "prompt"@,
    ]
}

/// Law: a field that may not stand in a request is named as unsupported,
/// whatever it holds.
pub proof fn an_unlisted_field_is_unsupported(key: Seq<char>, value: JsonView)
    requires
        !request_fields().contains(key),
    ensures
        top_outcome(key, value) matches Err(rejection) && refuses_at(
            rejection,
            RejectionCode::UnsupportedParameter,
            key,
        ),
{
    let names = request_fields();
    assert(forall|i: int| 0 <= i < 23 ==> names[i] != key);
    assert(names[0] != key && names[1] != key && names[2] != key && names[3] != key);
    assert(names[4] != key && names[5] != key && names[6] != key && names[7] != key);
    assert(names[8] != key && names[9] != key && names[10] != key && names[11] != key);
    assert(names[12] != key && names[13] != key && names[14] != key && names[15] != key);
    assert(names[16] != key && names[17] != key && names[18] != key && names[19] != key);
    assert(names[20] != key && names[21] != key && names[22] != key);
}

/// Law: what would have the provider keep state is refused as such, a
/// background that is asked for as invalid, and both are passed over where they
/// ask for nothing.
pub proof fn state_kept_elsewhere_is_refused(key: Seq<char>, value: JsonView)
    ensures
        key == "previous_response_id"@ || key == "conversation"@ || key == "prompt"@ ==> (
        match top_outcome(key, value) {
            Ok(kept) => value is Null && kept is None,
            Err(rejection) => !(value is Null) && refuses_at(
                rejection,
                RejectionCode::ServerSideState,
                key,
            ),
        }),
        key == "background"@ ==> (match top_outcome(key, value) {
            Ok(kept) => (value is Null || value == JsonView::Bool(false)) && kept is None,
            Err(rejection) => !(value is Null) && value != JsonView::Bool(false) && refuses_at(
                rejection,
                RejectionCode::InvalidValue,
                key,
            ),
        }),
        key == "stream"@ || key == "client_metadata"@ ==> (top_outcome(key, value) matches Ok(kept)
            && kept is None),
{
    reveal_strlit("stream");
    reveal_strlit("client_metadata");
    reveal_strlit("background");
    reveal_strlit("previous_response_id");
    reveal_strlit("conversation");
    reveal_strlit("prompt");
    reveal_strlit("store");
    reveal_strlit("parallel_tool_calls");
    reveal_strlit("service_tier");
    reveal_strlit("instructions");
    reveal_strlit("prompt_cache_key");
    reveal_strlit("model");
    reveal_strlit("input");
    reveal_strlit("tools");
    reveal_strlit("tool_choice");
    reveal_strlit("reasoning");
    reveal_strlit("text");
    reveal_strlit("prompt_cache_options");
    reveal_strlit("include");
    reveal_strlit("max_output_tokens");
    reveal_strlit("temperature");
    reveal_strlit("top_p");
    reveal_strlit("metadata");
    assert("stream"@.len() == 6 && "stream"@[0] == 's');
    assert("client_metadata"@.len() == 15);
    assert("background"@.len() == 10);
    assert("previous_response_id"@.len() == 20 && "previous_response_id"@[2] == 'e');
    assert("conversation"@.len() == 12 && "conversation"@[0] == 'c');
    assert("prompt"@.len() == 6 && "prompt"@[0] == 'p');
    assert("store"@.len() == 5 && "store"@[0] == 's');
    assert("parallel_tool_calls"@.len() == 19);
    assert("service_tier"@.len() == 12 && "service_tier"@[0] == 's');
    assert("instructions"@.len() == 12 && "instructions"@[0] == 'i');
    assert("prompt_cache_key"@.len() == 16);
    assert("model"@.len() == 5 && "model"@[0] == 'm');
    assert("input"@.len() == 5 && "input"@[0] == 'i');
    assert("tools"@.len() == 5 && "tools"@[0] == 't' && "tools"@[2] == 'o');
    assert("tool_choice"@.len() == 11 && "tool_choice"@[1] == 'o');
    assert("reasoning"@.len() == 9);
    assert("text"@.len() == 4);
    assert("prompt_cache_options"@.len() == 20 && "prompt_cache_options"@[2] == 'o');
    assert("include"@.len() == 7);
    assert("max_output_tokens"@.len() == 17);
    assert("temperature"@.len() == 11 && "temperature"@[1] == 'e');
    assert("top_p"@.len() == 5 && "top_p"@[0] == 't' && "top_p"@[2] == 'p');
    assert("metadata"@.len() == 8);
}

/// Law: a field of a plain value that holds another is refused as invalid.
pub proof fn a_plain_value_of_another_kind_is_invalid(key: Seq<char>, value: JsonView)
    requires
        seq![
            "model"@,
            "instructions"@,
            "prompt_cache_key"@,
            "parallel_tool_calls"@,
            "max_output_tokens"@,
            "temperature"@,
            "top_p"@,
            "store"@,
            "service_tier"@,
        ].contains(key),
    ensures
        top_outcome(key, value) matches Err(rejection) ==> refuses_at(
            rejection,
            RejectionCode::InvalidValue,
            key,
        ),
{
    reveal_strlit("stream");
    reveal_strlit("client_metadata");
    reveal_strlit("background");
    reveal_strlit("previous_response_id");
    reveal_strlit("conversation");
    reveal_strlit("prompt");
    reveal_strlit("store");
    reveal_strlit("parallel_tool_calls");
    reveal_strlit("service_tier");
    reveal_strlit("instructions");
    reveal_strlit("prompt_cache_key");
    reveal_strlit("model");
    reveal_strlit("input");
    reveal_strlit("tools");
    reveal_strlit("tool_choice");
    reveal_strlit("reasoning");
    reveal_strlit("text");
    reveal_strlit("prompt_cache_options");
    reveal_strlit("include");
    reveal_strlit("max_output_tokens");
    reveal_strlit("temperature");
    reveal_strlit("top_p");
    reveal_strlit("metadata");
    assert("stream"@.len() == 6 && "stream"@[0] == 's');
    assert("client_metadata"@.len() == 15);
    assert("background"@.len() == 10);
    assert("previous_response_id"@.len() == 20 && "previous_response_id"@[2] == 'e');
    assert("conversation"@.len() == 12 && "conversation"@[0] == 'c');
    assert("prompt"@.len() == 6 && "prompt"@[0] == 'p');
    assert("store"@.len() == 5 && "store"@[0] == 's');
    assert("parallel_tool_calls"@.len() == 19);
    assert("service_tier"@.len() == 12 && "service_tier"@[0] == 's');
    assert("instructions"@.len() == 12 && "instructions"@[0] == 'i');
    assert("prompt_cache_key"@.len() == 16);
    assert("model"@.len() == 5 && "model"@[0] == 'm');
    assert("input"@.len() == 5 && "input"@[0] == 'i');
    assert("tools"@.len() == 5 && "tools"@[0] == 't' && "tools"@[2] == 'o');
    assert("tool_choice"@.len() == 11 && "tool_choice"@[1] == 'o');
    assert("reasoning"@.len() == 9);
    assert("text"@.len() == 4);
    assert("prompt_cache_options"@.len() == 20 && "prompt_cache_options"@[2] == 'o');
    assert("include"@.len() == 7);
    assert("max_output_tokens"@.len() == 17);
    assert("temperature"@.len() == 11 && "temperature"@[1] == 'e');
    assert("top_p"@.len() == 5 && "top_p"@[0] == 't' && "top_p"@[2] == 'p');
    assert("metadata"@.len() == 8);
}

/// Law: an object that has to say what it is and does not is refused at its
/// type: as missing, or as invalid where it is no text. An input item with a
/// role needs no type.
pub proof fn an_object_has_to_say_what_it_is(
    element: Element,
    members: Seq<(Seq<char>, JsonView)>,
    path: Seq<char>,
)
    requires
        path.len() > 0,
        !(element is IncludeEntry),
        !(member_of(members, "type"@) matches Some(JsonView::Text(_))),
        element is InputItem ==> !has_member(members, "role"@) || member_of(members, "type"@) is Some,
    ensures
        checked_element(element, JsonView::Object(members), path) matches Err(rejection)
            && refuses_at(
            rejection,
            if member_of(members, "type"@) is None {
                RejectionCode::MissingParameter
            } else {
                RejectionCode::InvalidValue
            },
            field_at(path, "type"@),
        ),
{
    lemma_field_at(path, "type"@);
}

/// Law: an input item of another type than the seven, and a content part that
/// may not stand where it does, are refused at their type as unsupported input.
pub proof fn an_unknown_item_is_unsupported_input(
    members: Seq<(Seq<char>, JsonView)>,
    kind: Seq<char>,
    path: Seq<char>,
)
    requires
        path.len() > 0,
        member_of(members, "type"@) == Some(JsonView::Text(kind)),
    ensures
        ({
            let at = field_at(path, "type"@);
            let item = checked_element(Element::InputItem, JsonView::Object(members), path);
            let part = checked_element(Element::MessagePart, JsonView::Object(members), path);
            let output = checked_element(Element::OutputPart, JsonView::Object(members), path);
            let code = RejectionCode::UnsupportedInputItem;
            &&& kind != "message"@ && kind != "reasoning"@ && kind != "function_call"@ && kind
                != "function_call_output"@ && kind != "custom_tool_call"@ && kind
                != "custom_tool_call_output"@ && kind != "additional_tools"@ ==> (
            item matches Err(rejection) && refuses_at(rejection, code, at))
            &&& kind != "input_text"@ && kind != "output_text"@ && kind != "refusal"@ && kind
                != "input_image"@ ==> (part matches Err(rejection) && refuses_at(
                rejection,
                code,
                at,
            ))
            &&& kind != "input_text"@ && kind != "input_image"@ ==> (
            output matches Err(rejection) && refuses_at(rejection, code, at))
        }),
{
    lemma_field_at(path, "type"@);
    let parts = crate::allowlist::parts_of(Element::MessagePart);
    assert(forall|i: int|
        0 <= i < parts.len() ==> parts[i] == "input_text"@ || parts[i] == "output_text"@ || parts[i]
            == "refusal"@ || parts[i] == "input_image"@);
    let outputs = crate::allowlist::parts_of(Element::OutputPart);
    assert(forall|i: int|
        0 <= i < outputs.len() ==> outputs[i] == "input_text"@ || outputs[i] == "input_image"@);
}

/// Law: a tool that the provider would run is refused at its type as hosted,
/// wherever it is declared; a namespace within a namespace is invalid.
pub proof fn a_hosted_tool_is_refused_as_hosted(
    members: Seq<(Seq<char>, JsonView)>,
    kind: Seq<char>,
    path: Seq<char>,
)
    requires
        path.len() > 0,
        member_of(members, "type"@) == Some(JsonView::Text(kind)),
        kind != "function"@ && kind != "custom"@,
    ensures
        ({
            let at = field_at(path, "type"@);
            let tool = checked_element(Element::Tool, JsonView::Object(members), path);
            let inner = checked_element(Element::NamespacedTool, JsonView::Object(members), path);
            if kind == "namespace"@ {
                inner matches Err(rejection) && refuses_at(
                    rejection,
                    RejectionCode::InvalidValue,
                    at,
                )
            } else {
                &&& tool matches Err(rejection)
                &&& refuses_at(rejection, RejectionCode::HostedTool, at)
                &&& inner matches Err(rejection)
                &&& refuses_at(rejection, RejectionCode::HostedTool, at)
            }
        }),
{
    lemma_field_at(path, "type"@);
}

/// Law: an image that is not inline is refused as a remote reference where its
/// address stands, whatever is in order before it.
pub proof fn a_remote_image_is_a_remote_reference(
    members: Seq<(Seq<char>, JsonView)>,
    url: Seq<char>,
    path: Seq<char>,
)
    requires
        path.len() > 0,
        !"data:"@.is_prefix_of(url),
        checked_fields(Shape::InputImage, members, path) is Ok,
    ensures
        checked_fields(
            Shape::InputImage,
            members.push(("image_url"@, JsonView::Text(url))),
            path,
        ) matches Err(rejection) && refuses_at(
            rejection,
            RejectionCode::RemoteReference,
            field_at(path, "image_url"@),
        ),
{
    let longer = members.push(("image_url"@, JsonView::Text(url)));
    lemma_field_at(path, "image_url"@);
    reveal_strlit("image_url");
    reveal_strlit("type");
    reveal_strlit("detail");
    assert("image_url"@.len() == 9);
    assert("type"@.len() == 4);
    assert("detail"@.len() == 6);
    assert(longer.last() == ("image_url"@, JsonView::Text(url)));
    assert(longer.drop_last() =~= members);
    assert(rule_of(Shape::InputImage, "image_url"@) == Some(Rule::InlineImage));
    let at = joined_path(path, "image_url"@);
    assert(checked(Rule::InlineImage, JsonView::Text(url), at) is Err);
}

/// Law: of the fields of an object that are refused, the first decides. One
/// that may not stand there is unsupported; one that may is refused for what
/// it holds.
pub proof fn the_first_field_of_an_object_decides(
    shape: Shape,
    members: Seq<(Seq<char>, JsonView)>,
    key: Seq<char>,
    value: JsonView,
    path: Seq<char>,
)
    requires
        path.len() > 0,
    ensures
        ({
            let after = checked_fields(shape, members.push((key, value)), path);
            match checked_fields(shape, members, path) {
                Err(rejection) => after == Err::<Seq<(Seq<char>, JsonView)>, RejectionView>(
                    rejection,
                ),
                Ok(kept) => match rule_of(shape, key) {
                    None => after matches Err(rejection) && refuses_at(
                        rejection,
                        RejectionCode::UnsupportedParameter,
                        field_at(path, key),
                    ),
                    Some(Rule::Strip) => after == Ok::<Seq<(Seq<char>, JsonView)>, RejectionView>(
                        kept,
                    ),
                    Some(rule) => match checked(rule, value, field_at(path, key)) {
                        Ok(value) => after == Ok::<Seq<(Seq<char>, JsonView)>, RejectionView>(
                            kept.push((key, value)),
                        ),
                        Err(rejection) => after == Err::<
                            Seq<(Seq<char>, JsonView)>,
                            RejectionView,
                        >(rejection),
                    },
                },
            }
        }),
{
    lemma_field_at(path, key);
    let longer = members.push((key, value));
    assert(longer.drop_last() =~= members);
    assert(longer.last() == (key, value));
}

/// Law: of the items of a list that are refused, the first decides, and it is
/// named by its place, counted from zero.
pub proof fn the_first_item_of_a_list_decides(
    element: Element,
    items: Seq<JsonView>,
    value: JsonView,
    path: Seq<char>,
)
    ensures
        ({
            let after = checked_items(element, items.push(value), path);
            let at = path + seq!['['] + decimal_text(items.len()) + seq![']'];
            match checked_items(element, items, path) {
                Err(rejection) => after == Err::<Seq<JsonView>, RejectionView>(rejection),
                Ok(done) => match checked_element(element, value, at) {
                    Err(rejection) => after == Err::<Seq<JsonView>, RejectionView>(rejection),
                    Ok(value) => after == Ok::<Seq<JsonView>, RejectionView>(done.push(value)),
                },
            }
        }),
{
    reveal_strlit("[");
    reveal_strlit("]");
    assert("["@ =~= seq!['[']);
    assert("]"@ =~= seq![']']);
    assert(items.push(value).drop_last() =~= items);
    assert(items.push(value).last() == value);
}

} // verus!
