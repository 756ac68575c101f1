//! What holds of every accepted request.
use vstd::prelude::*;

use crate::allowlist::{
    checked, checked_element, checked_items, checked_shape, index_path, kind_of, shape_of, Element,
};
use crate::bodies::openai_fields;
use crate::json::{
    has_member, json_get, lemma_member_index, member_index, member_of, without_member, JsonView, NumberView,
};
use crate::normal_form::{
    lemma_kept_survive, lemma_member_of_push, lemma_member_push, normalizing_only_strips,
    normalizing_twice_changes_nothing, pruned, survives,
};
use crate::rejection::{unsupported_parameter_view, RejectionView};
use crate::request::{
    lemma_top_fail, request_of, top_fields, top_rule, RequestView, TopRule, UPSTREAM_SERVICE_TIER,
};
use crate::shapes::Rule;

verus! {

/// Law: an unlisted top-level field is refused by name, whatever it holds,
/// unless an earlier field is refused first.
pub proof fn unlisted_fields_are_refused(members: Seq<(Seq<char>, JsonView)>, i: int)
    requires
        0 <= i < members.len(),
        top_rule(members[i].0) is Unknown,
    ensures
        request_of(JsonView::Object(members)) is Err,
        top_fields(members.take(i)) is Ok ==> request_of(JsonView::Object(members)) == Err::<
            RequestView,
            RejectionView,
        >(unsupported_parameter_view(members[i].0)),
{
    assert(members.take(i + 1).drop_last() =~= members.take(i));
    assert(members.take(i + 1).last() == members[i]);
    lemma_top_fail(members, i + 1);
}

/// Whether every field is one that is kept, in normalized form.
pub open spec fn all_normal(fields: Seq<(Seq<char>, JsonView)>) -> bool {
    forall|i: int| 0 <= i < fields.len() ==> normal_field(#[trigger] fields[i])
}

/// Whether a field is one that is kept, in normalized form.
pub open spec fn normal_field(field: (Seq<char>, JsonView)) -> bool {
    top_rule(field.0) matches TopRule::Keep(rule) && checked(rule, field.1, field.0) == Ok::<
        JsonView,
        RejectionView,
    >(field.1)
}

/// Law: an accepted request holds only fields that are kept, each in
/// normalized form. Nothing else reaches a provider: not `client_metadata`,
/// not a reference to stored state.
pub proof fn only_kept_fields_survive(members: Seq<(Seq<char>, JsonView)>)
    requires
        top_fields(members) is Ok,
    ensures
        all_normal(top_fields(members)->Ok_0),
    decreases members.len(),
{
    if members.len() > 0 {
        only_kept_fields_survive(members.drop_last());
        let (key, value) = members.last();
        match top_rule(key) {
            TopRule::Keep(rule) => {
                if checked(rule, value, key) is Ok {
                    normalizing_twice_changes_nothing(rule, value, key);
                }
            },
            _ => {},
        }
    }
}

/// The top-level fields that do not travel: those the proxy fixes or manages,
/// what is private to the client, and references to stored state.
pub open spec fn kept_back(key: Seq<char>) -> bool {
    key == "stream"@ || key == "background"@ || key == "store"@ || key == "service_tier"@ || key
        == "prompt_cache_options"@ || key == "client_metadata"@ || key == "previous_response_id"@
        || key == "conversation"@ || key == "prompt"@
}

/// What becomes of a name among accepted top-level fields.
pub proof fn lemma_top_member(members: Seq<(Seq<char>, JsonView)>, key: Seq<char>)
    requires
        top_fields(members) is Ok,
    ensures
        ({
            let kept = top_fields(members)->Ok_0;
            match member_of(members, key) {
                Some(before) => if kept_back(key) {
                    member_of(kept, key) is None
                } else {
                    member_of(kept, key) matches Some(after) && pruned(before, after)
                },
                None => member_of(kept, key) is None,
            }
        }),
    decreases members.len(),
{
    let kept = top_fields(members)->Ok_0;
    if members.len() == 0 {
        lemma_member_index(members, key, 0);
        lemma_member_index(kept, key, 0);
    } else {
        let front = members.drop_last();
        let (name, value) = members.last();
        lemma_top_member(front, key);
        assert(members =~= front.push(members.last()));
        lemma_member_of_push(front, members.last(), key);
        let before = top_fields(front)->Ok_0;
        if let TopRule::Keep(rule) = top_rule(name) {
            normalizing_only_strips(rule, value, name);
            let after = checked(rule, value, name)->Ok_0;
            lemma_member_of_push(before, (name, after), key);
        }
    }
}

/// Law: every top-level field of an accepted request reaches the normalized
/// request, but for those the proxy fixes or manages, the client's own
/// metadata, and references to stored state. What reaches it was not
/// rewritten: a text, a number or a truth value is the one the client sent, and
/// nothing was taken out of an object or an array but references to stored
/// items and the annotations of a model's output. Nothing else is in it.
pub proof fn what_the_client_asked_for_travels(value: JsonView, key: Seq<char>)
    requires
        request_of(value) is Ok,
    ensures
        ({
            let fields = request_of(value)->Ok_0.fields;
            if key == "stream"@ || key == "background"@ || key == "store"@ || key
                == "service_tier"@ || key == "prompt_cache_options"@ || key == "client_metadata"@
                || key == "previous_response_id"@ || key == "conversation"@ || key == "prompt"@ {
                member_of(fields, key) is None
            } else {
                match json_get(value, key) {
                    Some(sent) => {
                        &&& member_of(fields, key) matches Some(kept) && pruned(sent, kept)
                        &&& sent is Text || sent is Bool || sent is Number || sent is Null
                            ==> member_of(fields, key) == Some(sent)
                    },
                    None => member_of(fields, key) is None,
                }
            }
        }),
{
    lemma_top_member(value->Object_0, key);
}

/// Law: an accepted request streams, names a model and holds an input; the
/// model and the output cap are read from it as they stand.
pub proof fn an_accepted_request_is_complete(value: JsonView)
    requires
        request_of(value) is Ok,
    ensures
        ({
            let request = request_of(value)->Ok_0;
            &&& json_get(value, "stream"@) == Some(JsonView::Bool(true))
            &&& json_get(value, "model"@) == Some(JsonView::Text(request.model))
            &&& json_get(value, "input"@) is Some
            &&& request.max_output_tokens == match json_get(value, "max_output_tokens"@) {
                Some(JsonView::Number(NumberView::Unsigned(n))) => Some(n),
                _ => None,
            }
            &&& json_get(value, "max_output_tokens"@) is Some <==> request.max_output_tokens is Some
        }),
{
    let members = value->Object_0;
    let request = request_of(value)->Ok_0;
    lemma_top_member(members, "model"@);
    lemma_top_member(members, "input"@);
    lemma_top_member(members, "max_output_tokens"@);
    lemma_more_names();
    only_kept_fields_survive(members);
    lemma_member_index(request.fields, "max_output_tokens"@, 0);
    let at = member_index(request.fields, "max_output_tokens"@, 0);
    if at < request.fields.len() {
        assert(normal_field(request.fields[at]));
    }
    match member_of(request.fields, "model"@) {
        Some(JsonView::Text(text)) => {
            let sent = member_of(members, "model"@)->0;
            assert(pruned(sent, JsonView::Text(text)));
        },
        _ => {},
    }
}

/// The names that decide where the model, the input and the output cap stand.
pub proof fn lemma_more_names()
    ensures
        !kept_back("model"@),
        !kept_back("input"@),
        !kept_back("max_output_tokens"@),
        top_rule("max_output_tokens"@) == TopRule::Keep(Rule::PositiveInteger),
{
    reveal_strlit("stream");
    reveal_strlit("background");
    reveal_strlit("store");
    reveal_strlit("service_tier");
    reveal_strlit("prompt_cache_options");
    reveal_strlit("client_metadata");
    reveal_strlit("previous_response_id");
    reveal_strlit("conversation");
    reveal_strlit("prompt");
    reveal_strlit("model");
    reveal_strlit("input");
    reveal_strlit("instructions");
    reveal_strlit("prompt_cache_key");
    reveal_strlit("tools");
    reveal_strlit("tool_choice");
    reveal_strlit("parallel_tool_calls");
    reveal_strlit("reasoning");
    reveal_strlit("text");
    reveal_strlit("include");
    reveal_strlit("max_output_tokens");
    assert("input"@.len() == 5 && "input"@[0] == 'i');
    assert("store"@.len() == 5 && "store"@[0] == 's');
    assert("model"@.len() == 5 && "model"@[0] == 'm');
    assert("stream"@.len() == 6 && "prompt"@.len() == 6 && "background"@.len() == 10);
    assert("service_tier"@.len() == 12 && "conversation"@.len() == 12 && "instructions"@.len()
        == 12);
    assert("prompt_cache_options"@.len() == 20 && "previous_response_id"@.len() == 20);
    assert("client_metadata"@.len() == 15 && "prompt_cache_key"@.len() == 16);
    assert("tools"@.len() == 5 && "tool_choice"@.len() == 11 && "parallel_tool_calls"@.len() == 19);
    assert("reasoning"@.len() == 9 && "text"@.len() == 4 && "include"@.len() == 7);
    assert("max_output_tokens"@.len() == 17);
}

/// The names that decide where `input`, `id` and `status` stand.
proof fn lemma_names()
    ensures
        top_rule("input"@) == TopRule::Keep(Rule::Input),
        top_rule("background"@) is Background,
        top_rule("store"@) == TopRule::Drop(Rule::Bool),
        top_rule("stream"@) is Stream,
        top_rule("service_tier"@) == TopRule::Drop(Rule::Text),
        "background"@ != "store"@,
        "background"@ != "stream"@,
        "background"@ != "service_tier"@,
        "store"@ != "stream"@,
        "store"@ != "service_tier"@,
        "stream"@ != "service_tier"@,
{
    reveal_strlit("input");
    reveal_strlit("stream");
    reveal_strlit("background");
    reveal_strlit("store");
    reveal_strlit("service_tier");
    reveal_strlit("prompt_cache_options");
    reveal_strlit("client_metadata");
    reveal_strlit("previous_response_id");
    reveal_strlit("conversation");
    reveal_strlit("prompt");
    reveal_strlit("model");
    assert("input"@.len() == 5 && "input"@[0] == 'i');
    assert("store"@.len() == 5 && "store"@[0] == 's');
    assert("model"@.len() == 5 && "model"@[0] == 'm');
    assert("stream"@.len() == 6);
    assert("background"@.len() == 10);
    assert("service_tier"@.len() == 12);
    assert("prompt_cache_options"@.len() == 20);
    assert("client_metadata"@.len() == 15);
    assert("previous_response_id"@.len() == 20);
    assert("conversation"@.len() == 12 && "conversation"@[0] == 'c');
    assert("prompt"@.len() == 6);
}

/// An object without a reference to a stored item.
pub open spec fn by_content(item: JsonView) -> bool {
    item matches JsonView::Object(members) && !has_member(members, "id"@) && !has_member(
        members,
        "status"@,
    )
}

/// No shape of an input item keeps `id` or `status`.
proof fn lemma_references_are_stripped(kind: Seq<char>, path: Seq<char>)
    ensures
        shape_of(Element::InputItem, kind, path) matches Ok(shape) ==> !survives(shape, "id"@)
            && !survives(shape, "status"@),
{
    reveal_strlit("id");
    reveal_strlit("status");
    reveal_strlit("type");
    reveal_strlit("role");
    reveal_strlit("tools");
    assert("id"@.len() == 2);
    assert("status"@.len() == 6);
    assert("type"@.len() == 4);
    assert("role"@.len() == 4);
    assert("tools"@.len() == 5);
}

proof fn lemma_item_by_content(value: JsonView, path: Seq<char>)
    requires
        checked_element(Element::InputItem, value, path) is Ok,
    ensures
        by_content(checked_element(Element::InputItem, value, path)->Ok_0),
{
    let members = value->Object_0;
    let kind = kind_of(Element::InputItem, members, path)->Ok_0;
    lemma_references_are_stripped(kind, path);
    let shape = shape_of(Element::InputItem, kind, path)->Ok_0;
    let kept = checked_shape(shape, members, path)->Ok_0;
    lemma_kept_survive(shape, members, path);
    lemma_member_index(kept, "id"@, 0);
    lemma_member_index(kept, "status"@, 0);
}

proof fn lemma_items_by_content(items: Seq<JsonView>, path: Seq<char>)
    requires
        checked_items(Element::InputItem, items, path) is Ok,
    ensures
        forall|i: int|
            0 <= i < checked_items(Element::InputItem, items, path)->Ok_0.len() ==> by_content(
                #[trigger] checked_items(Element::InputItem, items, path)->Ok_0[i],
            ),
    decreases items.len(),
{
    if items.len() > 0 {
        lemma_items_by_content(items.drop_last(), path);
        lemma_item_by_content(items.last(), index_path(path, (items.len() - 1) as nat));
    }
}

/// Law: history travels by content. No input item of an accepted request
/// keeps an `id` or a `status`.
pub proof fn history_travels_by_content(value: JsonView)
    requires
        request_of(value) is Ok,
    ensures
        match member_of(request_of(value)->Ok_0.fields, "input"@) {
            Some(JsonView::Array(items)) => forall|i: int|
                0 <= i < items.len() ==> by_content(#[trigger] items[i]),
            Some(JsonView::Text(_)) => true,
            _ => false,
        },
{
    let fields = request_of(value)->Ok_0.fields;
    only_kept_fields_survive(value->Object_0);
    lemma_names();
    lemma_member_index(fields, "input"@, 0);
    let at = member_index(fields, "input"@, 0);
    assert(normal_field(fields[at]));
    match fields[at].1 {
        JsonView::Array(items) => {
            lemma_items_by_content(items, "input"@);
        },
        _ => {},
    }
}

/// A name that no normal field has stands nowhere among them.
proof fn lemma_fixed_name(fields: Seq<(Seq<char>, JsonView)>, key: Seq<char>)
    requires
        all_normal(fields),
        !(top_rule(key) is Keep),
    ensures
        !has_member(fields, key),
        member_index(fields, key, 0) == fields.len(),
{
    lemma_member_index(fields, key, 0);
    let at = member_index(fields, key, 0);
    if at < fields.len() {
        assert(normal_field(fields[at]));
    }
}

/// The fields the proxy fixes in an OpenAI body.
pub open spec fn fixed_fields() -> Seq<(Seq<char>, JsonView)> {
    seq![
        ("background"@, JsonView::Bool(true)),
        ("store"@, JsonView::Bool(true)),
        ("stream"@, JsonView::Bool(true)),
        ("service_tier"@, JsonView::Text(UPSTREAM_SERVICE_TIER@)),
    ]
}

/// Law: the client's fields keep their order, and the fixed fields come last,
/// with the values settlement relies on.
pub proof fn the_fixed_fields_come_last(fields: Seq<(Seq<char>, JsonView)>)
    requires
        all_normal(fields),
    ensures
        openai_fields(fields) == fields + fixed_fields(),
{
    lemma_names();
    lemma_fixed_name(fields, "background"@);
    lemma_fixed_name(fields, "store"@);
    lemma_fixed_name(fields, "stream"@);
    lemma_fixed_name(fields, "service_tier"@);
    let a = fields.push(("background"@, JsonView::Bool(true)));
    lemma_member_of_push(fields, a.last(), "store"@);
    lemma_member_of_push(fields, a.last(), "stream"@);
    lemma_member_of_push(fields, a.last(), "service_tier"@);
    let b = a.push(("store"@, JsonView::Bool(true)));
    lemma_member_of_push(a, b.last(), "stream"@);
    lemma_member_of_push(a, b.last(), "service_tier"@);
    let c = b.push(("stream"@, JsonView::Bool(true)));
    lemma_member_of_push(b, c.last(), "service_tier"@);
    let d = c.push(("service_tier"@, JsonView::Text(UPSTREAM_SERVICE_TIER@)));
    assert(d =~= fields + fixed_fields());
}

/// Normal fields are accepted as they are.
proof fn lemma_normal_again(fields: Seq<(Seq<char>, JsonView)>)
    requires
        all_normal(fields),
    ensures
        top_fields(fields) == Ok::<Seq<(Seq<char>, JsonView)>, RejectionView>(fields),
    decreases fields.len(),
{
    if fields.len() > 0 {
        let front = fields.drop_last();
        assert forall|i: int| 0 <= i < front.len() implies normal_field(#[trigger] front[i]) by {
            assert(front[i] == fields[i]);
        }
        lemma_normal_again(front);
        assert(normal_field(fields[fields.len() - 1]));
        assert(front.push(fields.last()) =~= fields);
    } else {
        assert(fields =~= Seq::empty());
    }
}

/// What a sent body holds besides background mode.
spec fn sent_again(fields: Seq<(Seq<char>, JsonView)>) -> Seq<(Seq<char>, JsonView)> {
    fields.push(("store"@, JsonView::Bool(true))).push(("stream"@, JsonView::Bool(true))).push(
        ("service_tier"@, JsonView::Text(UPSTREAM_SERVICE_TIER@)),
    )
}

#[verifier::spinoff_prover]
proof fn lemma_without_background(fields: Seq<(Seq<char>, JsonView)>)
    requires
        all_normal(fields),
    ensures
        without_member(openai_fields(fields), "background"@) == sent_again(fields),
{
    the_fixed_fields_come_last(fields);
    lemma_names();
    lemma_fixed_name(fields, "background"@);
    let sent = openai_fields(fields);
    let a = fields.push(("background"@, JsonView::Bool(true)));
    lemma_member_push(fields, a.last(), "background"@, 0);
    let b = a.push(("store"@, JsonView::Bool(true)));
    lemma_member_push(a, b.last(), "background"@, 0);
    let c = b.push(("stream"@, JsonView::Bool(true)));
    lemma_member_push(b, c.last(), "background"@, 0);
    let d = c.push(("service_tier"@, JsonView::Text(UPSTREAM_SERVICE_TIER@)));
    lemma_member_push(c, d.last(), "background"@, 0);
    assert(d =~= sent);
    assert(without_member(sent, "background"@) =~= sent_again(fields));
}

#[verifier::spinoff_prover]
proof fn lemma_sent_again(fields: Seq<(Seq<char>, JsonView)>)
    requires
        all_normal(fields),
    ensures
        top_fields(sent_again(fields)) == Ok::<Seq<(Seq<char>, JsonView)>, RejectionView>(fields),
        member_of(sent_again(fields), "stream"@) == Some(JsonView::Bool(true)),
{
    lemma_names();
    lemma_fixed_name(fields, "stream"@);
    let r1 = fields.push(("store"@, JsonView::Bool(true)));
    let r2 = r1.push(("stream"@, JsonView::Bool(true)));
    let r3 = r2.push(("service_tier"@, JsonView::Text(UPSTREAM_SERVICE_TIER@)));
    lemma_normal_again(fields);
    assert(r1.drop_last() =~= fields);
    assert(r2.drop_last() =~= r1);
    assert(r3.drop_last() =~= r2);
    assert(top_fields(r1) == Ok::<Seq<(Seq<char>, JsonView)>, RejectionView>(fields));
    assert(top_fields(r2) == Ok::<Seq<(Seq<char>, JsonView)>, RejectionView>(fields));
    assert(top_fields(r3) == Ok::<Seq<(Seq<char>, JsonView)>, RejectionView>(fields));
    lemma_member_of_push(fields, r1.last(), "stream"@);
    lemma_member_of_push(r1, r2.last(), "stream"@);
    lemma_member_of_push(r2, r3.last(), "stream"@);
}

/// Law: but for background mode, which a client may not ask for, the body
/// sent upstream is itself an acceptable request, and normalizing it changes
/// nothing.
#[verifier::spinoff_prover]
pub proof fn a_sent_body_normalizes_to_itself(value: JsonView)
    requires
        request_of(value) is Ok,
    ensures
        request_of(
            JsonView::Object(
                without_member(openai_fields(request_of(value)->Ok_0.fields), "background"@),
            ),
        ) == request_of(value),
{
    let fields = request_of(value)->Ok_0.fields;
    only_kept_fields_survive(value->Object_0);
    lemma_without_background(fields);
    lemma_sent_again(fields);
}

} // verus!
