//! What holds of the bodies made from every accepted request.
use vstd::prelude::*;

use crate::bodies::{
    carried, count_bodies, counted_names, declares_tools, flat_of, hoisted, items_where,
    openai_fields, openrouter_fields, routed_names, structured, with_part,
};
use crate::json::{
    distinct_names, json_get, lemma_member_index, lemma_with_member, lemma_with_member_distinct,
    lemma_without_member, member_of, text_member, with_member, JsonView,
};
use crate::request::request_of;

verus! {

/// A name among those carried over has the value it had, and any other keeps
/// what it was.
proof fn lemma_carried(
    body: Seq<(Seq<char>, JsonView)>,
    fields: Seq<(Seq<char>, JsonView)>,
    names: Seq<Seq<char>>,
    key: Seq<char>,
)
    ensures
        member_of(carried(body, fields, names), key) == (if names.contains(key) && member_of(
            fields,
            key,
        ) is Some {
            member_of(fields, key)
        } else {
            member_of(body, key)
        }),
        distinct_names(body) ==> distinct_names(carried(body, fields, names)),
    decreases names.len(),
{
    if names.len() > 0 {
        let front = names.drop_last();
        lemma_carried(body, fields, front, key);
        let before = carried(body, fields, front);
        if let Some(value) = member_of(fields, names.last()) {
            lemma_with_member(before, names.last(), value, key);
            if distinct_names(body) {
                lemma_with_member_distinct(before, names.last(), value);
            }
        }
        assert(names.contains(key) <==> front.contains(key) || names.last() == key) by {
            if names.contains(key) {
                let i = choose|i: int| 0 <= i < names.len() && names[i] == key;
                if i < front.len() {
                    assert(front[i] == key);
                }
            }
            if front.contains(key) {
                let i = choose|i: int| 0 <= i < front.len() && front[i] == key;
                assert(names[i] == key);
            }
            assert(names[names.len() - 1] == names.last());
        }
    }
}

/// The fields a provider renders as input.
spec fn rendered(key: Seq<char>) -> bool {
    key == "model"@ || key == "instructions"@ || key == "input"@ || key == "tools"@ || key
        == "tool_choice"@ || key == "parallel_tool_calls"@ || key == "reasoning"@ || key
        == "text"@
}

proof fn lemma_counted(fields: Seq<(Seq<char>, JsonView)>, key: Seq<char>)
    ensures
        member_of(carried(Seq::empty(), fields, counted_names()), key) == (if rendered(key) {
            member_of(fields, key)
        } else {
            None
        }),
        distinct_names(carried(Seq::empty(), fields, counted_names())),
{
    let names = counted_names();
    lemma_carried(Seq::empty(), fields, names, key);
    lemma_member_index(Seq::<(Seq<char>, JsonView)>::empty(), key, 0);
    assert(names.contains(key) <==> rendered(key)) by {
        assert(names[0] == "model"@ && names[1] == "instructions"@ && names[2] == "input"@
            && names[3] == "tools"@ && names[4] == "tool_choice"@ && names[5]
            == "parallel_tool_calls"@ && names[6] == "reasoning"@ && names[7] == "text"@);
    }
}

/// The fixed fields stand beside the others.
proof fn lemma_sent(fields: Seq<(Seq<char>, JsonView)>, key: Seq<char>)
    ensures
        member_of(openai_fields(fields), key) == (if key == "service_tier"@ {
            Some(JsonView::Text("default"@))
        } else if key == "background"@ || key == "store"@ || key == "stream"@ {
            Some(JsonView::Bool(true))
        } else {
            member_of(fields, key)
        }),
{
    let a = with_member(fields, "background"@, JsonView::Bool(true));
    lemma_with_member(fields, "background"@, JsonView::Bool(true), key);
    let b = with_member(a, "store"@, JsonView::Bool(true));
    lemma_with_member(a, "store"@, JsonView::Bool(true), key);
    let c = with_member(b, "stream"@, JsonView::Bool(true));
    lemma_with_member(b, "stream"@, JsonView::Bool(true), key);
    lemma_with_member(c, "service_tier"@, JsonView::Text("default"@), key);
}

/// Law: what is sent to OpenAI is the normalized request with background mode,
/// storage and streaming on and the default service tier; every other field is
/// as it was.
pub proof fn the_sent_body_adds_only_what_settlement_needs(
    fields: Seq<(Seq<char>, JsonView)>,
    key: Seq<char>,
)
    ensures
        ({
            let sent = JsonView::Object(openai_fields(fields));
            &&& json_get(sent, "background"@) == Some(JsonView::Bool(true))
            &&& json_get(sent, "store"@) == Some(JsonView::Bool(true))
            &&& json_get(sent, "stream"@) == Some(JsonView::Bool(true))
            &&& json_get(sent, "service_tier"@) == Some(JsonView::Text("default"@))
            &&& key != "background"@ && key != "store"@ && key != "stream"@ && key
                != "service_tier"@ ==> json_get(sent, key) == member_of(fields, key)
        }),
{
    reveal_strlit("background");
    reveal_strlit("store");
    reveal_strlit("stream");
    reveal_strlit("service_tier");
    assert("background"@.len() == 10 && "store"@.len() == 5 && "stream"@.len() == 6
        && "service_tier"@.len() == 12);
    lemma_sent(fields, "background"@);
    lemma_sent(fields, "store"@);
    lemma_sent(fields, "stream"@);
    lemma_sent(fields, "service_tier"@);
    lemma_sent(fields, key);
}

/// The names that are rendered are not among the fixed ones.
proof fn lemma_rendered_is_not_fixed(key: Seq<char>)
    requires
        rendered(key),
    ensures
        key != "background"@,
        key != "store"@,
        key != "stream"@,
        key != "service_tier"@,
{
    reveal_strlit("background");
    reveal_strlit("store");
    reveal_strlit("stream");
    reveal_strlit("service_tier");
    reveal_strlit("model");
    reveal_strlit("instructions");
    reveal_strlit("input");
    reveal_strlit("tools");
    reveal_strlit("tool_choice");
    reveal_strlit("parallel_tool_calls");
    reveal_strlit("reasoning");
    reveal_strlit("text");
    assert("background"@.len() == 10 && "stream"@.len() == 6);
    assert("store"@.len() == 5 && "store"@[0] == 's');
    assert("service_tier"@.len() == 12 && "service_tier"@[0] == 's');
    assert("model"@.len() == 5 && "model"@[0] == 'm');
    assert("instructions"@.len() == 12 && "instructions"@[0] == 'i');
    assert("input"@.len() == 5 && "input"@[0] == 'i');
    assert("tools"@.len() == 5 && "tools"@[0] == 't');
    assert("tool_choice"@.len() == 11);
    assert("parallel_tool_calls"@.len() == 19);
    assert("reasoning"@.len() == 9);
    assert("text"@.len() == 4);
}

/// Law: everything that is sent to OpenAI and rendered as input is counted.
/// The first body to be counted has, for each of the rendered fields, exactly
/// the value the sent body has for it, and it has no other field.
pub proof fn what_is_sent_is_counted(value: JsonView, key: Seq<char>)
    requires
        request_of(value) is Ok,
    ensures
        ({
            let fields = request_of(value)->Ok_0.fields;
            let sent = JsonView::Object(openai_fields(fields));
            let counted = count_bodies(fields)[0];
            &&& count_bodies(fields).len() >= 1
            &&& counted is Object
            &&& json_get(counted, key) == if key == "model"@ || key == "instructions"@ || key
                == "input"@ || key == "tools"@ || key == "tool_choice"@ || key
                == "parallel_tool_calls"@ || key == "reasoning"@ || key == "text"@ {
                json_get(sent, key)
            } else {
                None
            }
        }),
{
    let fields = request_of(value)->Ok_0.fields;
    lemma_counted(fields, key);
    lemma_sent(fields, key);
    if rendered(key) {
        lemma_rendered_is_not_fixed(key);
    }
}

/// The names a body that declares an item's tools is made of.
proof fn lemma_hoisted(
    counted: Seq<(Seq<char>, JsonView)>,
    remaining: Seq<JsonView>,
    item: JsonView,
    key: Seq<char>,
)
    requires
        distinct_names(counted),
    ensures
        member_of(hoisted(counted, remaining, item), key) == (if key == "input"@ {
            Some(JsonView::Array(remaining))
        } else if key == "tools"@ {
            Some(
                match json_get(item, "tools"@) {
                    Some(tools) => tools,
                    None => JsonView::Array(Seq::empty()),
                },
            )
        } else if key == "tool_choice"@ && member_of(counted, key) is Some && member_of(
            counted,
            key,
        )->0 is Object {
            None
        } else {
            member_of(counted, key)
        }),
{
    reveal_strlit("input");
    reveal_strlit("tools");
    reveal_strlit("tool_choice");
    assert("input"@[0] == 'i' && "tools"@[0] == 't');
    assert("input"@.len() == 5 && "tools"@.len() == 5 && "tool_choice"@.len() == 11);
    let tools = match json_get(item, "tools"@) {
        Some(tools) => tools,
        None => JsonView::Array(Seq::empty()),
    };
    let a = with_member(counted, "input"@, JsonView::Array(remaining));
    lemma_with_member(counted, "input"@, JsonView::Array(remaining), key);
    lemma_with_member(counted, "input"@, JsonView::Array(remaining), "tool_choice"@);
    lemma_with_member_distinct(counted, "input"@, JsonView::Array(remaining));
    let b = with_member(a, "tools"@, tools);
    lemma_with_member(a, "tools"@, tools, key);
    lemma_with_member(a, "tools"@, tools, "tool_choice"@);
    lemma_with_member_distinct(a, "tools"@, tools);
    lemma_without_member(b, "tool_choice"@, key);
}

/// Law: each input item that declares tools adds a body to be counted, in
/// which those tools are declared at the top level in place of every such
/// item, with the rest of what is sent unchanged, but that a tool choice which
/// names a tool is left out.
pub proof fn tools_declared_in_items_are_counted_again(
    value: JsonView,
    items: Seq<JsonView>,
    i: int,
    key: Seq<char>,
)
    requires
        request_of(value) is Ok,
        member_of(request_of(value)->Ok_0.fields, "input"@) == Some(JsonView::Array(items)),
        0 <= i < items.len(),
        text_member(items[i], "type"@) == Some("additional_tools"@),
    ensures
        ({
            let fields = request_of(value)->Ok_0.fields;
            let sent = JsonView::Object(openai_fields(fields));
            let others = items.filter(
                |item: JsonView| text_member(item, "type"@) != Some("additional_tools"@),
            );
            exists|k: int|
                1 <= k < count_bodies(fields).len() && {
                    let body = #[trigger] count_bodies(fields)[k];
                    &&& json_get(body, "input"@) == Some(JsonView::Array(others))
                    &&& json_get(items[i], "tools"@) is Some ==> json_get(body, "tools"@)
                        == json_get(items[i], "tools"@)
                    &&& key == "model"@ || key == "instructions"@ || key == "parallel_tool_calls"@
                        || key == "reasoning"@ || key == "text"@ ==> json_get(body, key)
                        == json_get(sent, key)
                    &&& json_get(body, "tool_choice"@) == match json_get(sent, "tool_choice"@) {
                        Some(JsonView::Object(_)) => None,
                        choice => choice,
                    }
                }
        }),
{
    let fields = request_of(value)->Ok_0.fields;
    let counted = carried(Seq::empty(), fields, counted_names());
    let declaring = items_where(items, true);
    let remaining = items_where(items, false);
    let others = items.filter(
        |item: JsonView| text_member(item, "type"@) != Some("additional_tools"@),
    );
    lemma_same_filter(items);
    lemma_filter_keeps(items, i);
    let j = choose|j: int| 0 <= j < declaring.len() && declaring[j] == items[i];
    let make = |item: JsonView| JsonView::Object(hoisted(counted, remaining, item));
    let bodies = count_bodies(fields);
    assert(bodies[1 + j] == make(items[i]));
    let body = bodies[1 + j];
    lemma_counted(fields, key);
    lemma_counted(fields, "tool_choice"@);
    lemma_hoisted(counted, remaining, items[i], "input"@);
    lemma_hoisted(counted, remaining, items[i], "tools"@);
    lemma_hoisted(counted, remaining, items[i], "tool_choice"@);
    lemma_hoisted(counted, remaining, items[i], key);
    lemma_rendered_is_not_fixed("tool_choice"@);
    lemma_sent(fields, "tool_choice"@);
    lemma_sent(fields, key);
    reveal_strlit("input");
    reveal_strlit("tools");
    reveal_strlit("tool_choice");
    reveal_strlit("model");
    reveal_strlit("instructions");
    reveal_strlit("parallel_tool_calls");
    reveal_strlit("reasoning");
    reveal_strlit("text");
    assert("input"@[0] == 'i' && "tools"@[0] == 't' && "model"@[0] == 'm');
    assert("input"@.len() == 5 && "tools"@.len() == 5 && "tool_choice"@.len() == 11
        && "instructions"@.len() == 12 && "model"@.len() == 5 && "parallel_tool_calls"@.len()
        == 19 && "reasoning"@.len() == 9 && "text"@.len() == 4);
    if key == "model"@ || key == "instructions"@ || key == "parallel_tool_calls"@ || key
        == "reasoning"@ || key == "text"@ {
        lemma_rendered_is_not_fixed(key);
    }
}

/// The items that declare no tools are picked by their type.
proof fn lemma_same_filter(items: Seq<JsonView>)
    ensures
        items_where(items, false) == items.filter(
            |item: JsonView| text_member(item, "type"@) != Some("additional_tools"@),
        ),
    decreases items.len(),
{
    reveal(Seq::filter);
    if items.len() > 0 {
        lemma_same_filter(items.drop_last());
    }
}

/// An item that declares tools is among those that do.
proof fn lemma_filter_keeps(items: Seq<JsonView>, i: int)
    requires
        0 <= i < items.len(),
        declares_tools(items[i]),
    ensures
        exists|j: int|
            0 <= j < items_where(items, true).len() && items_where(items, true)[j] == items[i],
    decreases items.len(),
{
    reveal(Seq::filter);
    let kept = items_where(items, true);
    let front = items_where(items.drop_last(), true);
    if i == items.len() - 1 {
        assert(kept[kept.len() - 1] == items[i]);
    } else {
        lemma_filter_keeps(items.drop_last(), i);
        let j = choose|j: int| 0 <= j < front.len() && front[j] == items.drop_last()[i];
        assert(kept[j] == front[j]);
    }
}

/// The fields that travel to OpenRouter as they are.
spec fn routed(key: Seq<char>) -> bool {
    key == "instructions"@ || key == "input"@ || key == "tools"@ || key == "tool_choice"@ || key
        == "parallel_tool_calls"@ || key == "max_output_tokens"@ || key == "temperature"@ || key
        == "top_p"@
}

proof fn lemma_routed_names(key: Seq<char>)
    ensures
        routed_names().contains(key) <==> routed(key),
{
    let names = routed_names();
    assert(names[0] == "instructions"@ && names[1] == "input"@ && names[2] == "tools"@ && names[3]
        == "tool_choice"@ && names[4] == "parallel_tool_calls"@ && names[5]
        == "max_output_tokens"@ && names[6] == "temperature"@ && names[7] == "top_p"@);
}

proof fn lemma_with_part(
    body: Seq<(Seq<char>, JsonView)>,
    fields: Seq<(Seq<char>, JsonView)>,
    name: Seq<char>,
    part: Seq<char>,
    key: Seq<char>,
)
    ensures
        member_of(with_part(body, fields, name, part), key) == (match member_of(fields, name) {
            Some(object) if key == name && json_get(object, part) is Some => Some(
                JsonView::Object(seq![(part, json_get(object, part)->0)]),
            ),
            _ => member_of(body, key),
        }),
{
    if let Some(object) = member_of(fields, name) {
        if let Some(value) = json_get(object, part) {
            lemma_with_member(body, name, JsonView::Object(seq![(part, value)]), key);
        }
    }
}

/// The names of a routed body, apart from one another.
proof fn lemma_routed_is_apart()
    ensures
        !routed("model"@),
        !routed("reasoning"@),
        !routed("text"@),
        !routed("stream"@),
        !routed("store"@),
        "model"@ != "reasoning"@,
        "model"@ != "text"@,
        "model"@ != "stream"@,
        "model"@ != "store"@,
        "reasoning"@ != "text"@,
        "reasoning"@ != "stream"@,
        "reasoning"@ != "store"@,
        "text"@ != "stream"@,
        "text"@ != "store"@,
        "stream"@ != "store"@,
{
    reveal_strlit("model");
    reveal_strlit("reasoning");
    reveal_strlit("text");
    reveal_strlit("stream");
    reveal_strlit("store");
    reveal_strlit("instructions");
    reveal_strlit("input");
    reveal_strlit("tools");
    reveal_strlit("tool_choice");
    reveal_strlit("parallel_tool_calls");
    reveal_strlit("max_output_tokens");
    reveal_strlit("temperature");
    reveal_strlit("top_p");
    assert("model"@.len() == 5 && "model"@[0] == 'm');
    assert("store"@.len() == 5 && "store"@[0] == 's');
    assert("input"@.len() == 5 && "input"@[0] == 'i');
    assert("tools"@.len() == 5 && "tools"@[0] == 't');
    assert("top_p"@.len() == 5 && "top_p"@[0] == 't');
    assert("reasoning"@.len() == 9 && "text"@.len() == 4 && "stream"@.len() == 6);
    assert("instructions"@.len() == 12 && "tool_choice"@.len() == 11 && "parallel_tool_calls"@.len()
        == 19 && "max_output_tokens"@.len() == 17 && "temperature"@.len() == 11);
}

/// Law: what is sent to OpenRouter holds the model it is sent to, each of the
/// fields that travel exactly where the normalized request has it and with the
/// same value, of the reasoning options the effort alone, of the text options
/// the format alone, streaming on and storage off, and nothing else.
pub proof fn a_routed_body_holds_what_travels(
    fields: Seq<(Seq<char>, JsonView)>,
    model: Seq<char>,
    key: Seq<char>,
)
    ensures
        ({
            let body = JsonView::Object(openrouter_fields(fields, model));
            &&& key == "instructions"@ || key == "input"@ || key == "tools"@ || key
                == "tool_choice"@ || key == "parallel_tool_calls"@ || key == "max_output_tokens"@
                || key == "temperature"@ || key == "top_p"@ ==> json_get(body, key) == member_of(
                fields,
                key,
            )
            &&& json_get(body, "model"@) == Some(JsonView::Text(model))
            &&& json_get(body, "stream"@) == Some(JsonView::Bool(true))
            &&& json_get(body, "store"@) == Some(JsonView::Bool(false))
            &&& json_get(body, "reasoning"@) == match member_of(fields, "reasoning"@) {
                Some(options) if json_get(options, "effort"@) is Some => Some(
                    JsonView::Object(seq![("effort"@, json_get(options, "effort"@)->0)]),
                ),
                _ => None,
            }
            &&& json_get(body, "text"@) == match member_of(fields, "text"@) {
                Some(options) if json_get(options, "format"@) is Some => Some(
                    JsonView::Object(seq![("format"@, json_get(options, "format"@)->0)]),
                ),
                _ => None,
            }
            &&& json_get(body, key) is Some ==> key == "model"@ || key == "instructions"@ || key
                == "input"@ || key == "tools"@ || key == "tool_choice"@ || key
                == "parallel_tool_calls"@ || key == "max_output_tokens"@ || key == "temperature"@
                || key == "top_p"@ || key == "reasoning"@ || key == "text"@ || key == "stream"@
                || key == "store"@
        }),
{
    lemma_routed_is_apart();
    lemma_routed_body(fields, model, key);
    lemma_routed_body(fields, model, "model"@);
    lemma_routed_body(fields, model, "stream"@);
    lemma_routed_body(fields, model, "store"@);
    lemma_routed_body(fields, model, "reasoning"@);
    lemma_routed_body(fields, model, "text"@);
}

proof fn lemma_routed_body(
    fields: Seq<(Seq<char>, JsonView)>,
    model: Seq<char>,
    key: Seq<char>,
)
    ensures
        ({
            let start = seq![("model"@, JsonView::Text(model))];
            let a = if routed(key) && member_of(fields, key) is Some {
                member_of(fields, key)
            } else if key == "model"@ {
                Some(JsonView::Text(model))
            } else {
                None
            };
            let b = match member_of(fields, "reasoning"@) {
                Some(options) if key == "reasoning"@ && json_get(options, "effort"@) is Some =>
                Some(JsonView::Object(seq![("effort"@, json_get(options, "effort"@)->0)])),
                _ => a,
            };
            let c = match member_of(fields, "text"@) {
                Some(options) if key == "text"@ && json_get(options, "format"@) is Some => Some(
                    JsonView::Object(seq![("format"@, json_get(options, "format"@)->0)]),
                ),
                _ => b,
            };
            member_of(openrouter_fields(fields, model), key) == if key == "store"@ {
                Some(JsonView::Bool(false))
            } else if key == "stream"@ {
                Some(JsonView::Bool(true))
            } else {
                c
            }
        }),
{
    let start = seq![("model"@, JsonView::Text(model))];
    lemma_member_index(start, key, 0);
    let a = carried(start, fields, routed_names());
    lemma_carried(start, fields, routed_names(), key);
    lemma_routed_names(key);
    let b = with_part(a, fields, "reasoning"@, "effort"@);
    lemma_with_part(a, fields, "reasoning"@, "effort"@, key);
    let c = with_part(b, fields, "text"@, "format"@);
    lemma_with_part(b, fields, "text"@, "format"@, key);
    let d = with_member(c, "stream"@, JsonView::Bool(true));
    lemma_with_member(c, "stream"@, JsonView::Bool(true), key);
    lemma_with_member(d, "store"@, JsonView::Bool(false), key);
}

/// Law: a request is flat exactly where all that is rendered as input is one
/// text, with at most one text of instructions: no tool, no tool choice, and
/// no output format but plain text. The flat form is those texts.
pub proof fn a_flat_request_holds_nothing_else(fields: Seq<(Seq<char>, JsonView)>)
    ensures
        match flat_of(fields) {
            Some(flat) => {
                &&& member_of(fields, "input"@) == Some(JsonView::Text(flat.input))
                &&& match flat.instructions {
                    Some(text) => member_of(fields, "instructions"@) == Some(JsonView::Text(text)),
                    None => member_of(fields, "instructions"@) is None,
                }
                &&& member_of(fields, "tool_choice"@) is None
                &&& member_of(fields, "tools"@) matches Some(tools) ==> (tools matches JsonView::Array(
                    list,
                ) && list.len() == 0)
                &&& member_of(fields, "text"@) matches Some(options) ==> (json_get(
                    options,
                    "format"@,
                ) matches Some(format) ==> json_get(format, "type"@) == Some(
                    JsonView::Text("text"@),
                ))
            },
            None => {
                ||| !(member_of(fields, "input"@) matches Some(JsonView::Text(_)))
                ||| (member_of(fields, "instructions"@) matches Some(value) && !(value is Text))
                ||| member_of(fields, "tool_choice"@) is Some
                ||| (member_of(fields, "tools"@) matches Some(tools) && !(tools matches JsonView::Array(
                    list,
                ) && list.len() == 0))
                ||| (member_of(fields, "text"@) matches Some(options) && json_get(
                    options,
                    "format"@,
                ) matches Some(format) && json_get(format, "type"@) != Some(
                    JsonView::Text("text"@),
                ))
            },
        },
{
}

/// Law: a constrained output is asked for exactly where the output format
/// names a type other than plain text.
pub proof fn a_constrained_output_is_one_of_another_type(fields: Seq<(Seq<char>, JsonView)>)
    ensures
        structured(fields) <==> (member_of(fields, "text"@) matches Some(options) && json_get(
            options,
            "format"@,
        ) matches Some(format) && json_get(format, "type"@) matches Some(JsonView::Text(kind))
            && kind != "text"@),
{
}

} // verus!
