//! What a normalized request is sent as: the bodies for each provider and for
//! counting its input, and what a provider is chosen by.
use vstd::prelude::*;
use vstd::string::*;

use crate::codec::{json_bytes, write_json};
use crate::json::{
    copy_members, has_member, items_view, json_get, lemma_array_view, lemma_object_view, member,
    member_of, members_view, put, take_out, text_member, with_member, without_member, Json,
    JsonView,
};
use crate::request::{CreateRequest, UPSTREAM_SERVICE_TIER};
use crate::shapes::str_views;
use crate::text::{str_eq, str_view};

verus! {

/// A single text input with at most a single text instructions, and nothing
/// else that adds input: no tools, tool choice or structured output format.
#[derive(Debug, Clone, Copy, PartialEq, Eq)]
pub struct FlatText<'a> {
    pub instructions: Option<&'a str>,
    pub input: &'a str,
}

pub struct FlatView {
    pub instructions: Option<Seq<char>>,
    pub input: Seq<char>,
}

pub open spec fn flat_view(flat: Option<FlatText<'_>>) -> Option<FlatView> {
    match flat {
        Some(text) => Some(
            FlatView { instructions: str_view(text.instructions), input: text.input@ },
        ),
        None => None,
    }
}

/// Whether tools are declared at the top level.
pub open spec fn has_tools(fields: Seq<(Seq<char>, JsonView)>) -> bool {
    match member_of(fields, "tools"@) {
        Some(JsonView::Array(tools)) => tools.len() > 0,
        Some(_) => true,
        None => false,
    }
}

/// The output format that is asked for.
pub open spec fn format_of(fields: Seq<(Seq<char>, JsonView)>) -> Option<JsonView> {
    match member_of(fields, "text"@) {
        Some(text) => json_get(text, "format"@),
        None => None,
    }
}

/// The request in the flat form, or `None` where it has another.
pub open spec fn flat_of(fields: Seq<(Seq<char>, JsonView)>) -> Option<FlatView> {
    let formats_output = match format_of(fields) {
        Some(format) => text_member(format, "type"@) != Some("text"@),
        None => false,
    };
    match member_of(fields, "input"@) {
        Some(JsonView::Text(input)) => if has_tools(fields) || has_member(fields, "tool_choice"@)
            || formats_output {
            None
        } else {
            match member_of(fields, "instructions"@) {
                None => Some(FlatView { instructions: None, input }),
                Some(JsonView::Text(text)) => Some(FlatView { instructions: Some(text), input }),
                Some(_) => None,
            }
        },
        _ => None,
    }
}

/// The normalized fields, then the fields the proxy fixes.
pub open spec fn openai_fields(fields: Seq<(Seq<char>, JsonView)>) -> Seq<(Seq<char>, JsonView)> {
    let a = with_member(fields, "background"@, JsonView::Bool(true));
    let b = with_member(a, "store"@, JsonView::Bool(true));
    let c = with_member(b, "stream"@, JsonView::Bool(true));
    with_member(c, "service_tier"@, JsonView::Text(UPSTREAM_SERVICE_TIER@))
}

/// A body with the named fields carried over, in the order of the names.
pub open spec fn carried(
    body: Seq<(Seq<char>, JsonView)>,
    fields: Seq<(Seq<char>, JsonView)>,
    names: Seq<Seq<char>>,
) -> Seq<(Seq<char>, JsonView)>
    decreases names.len(),
{
    if names.len() == 0 {
        body
    } else {
        let before = carried(body, fields, names.drop_last());
        match member_of(fields, names.last()) {
            Some(value) => with_member(before, names.last(), value),
            None => before,
        }
    }
}

/// The fields that travel to OpenRouter as they are.
pub open spec fn routed_names() -> Seq<Seq<char>> {
    seq![
        "instructions"@,
        "input"@,
        "tools"@,
        "tool_choice"@,
        "parallel_tool_calls"@,
        "max_output_tokens"@,
        "temperature"@,
        "top_p"@,
    ]
}

/// A body with one part of an object field carried over, where it is there.
pub open spec fn with_part(
    body: Seq<(Seq<char>, JsonView)>,
    fields: Seq<(Seq<char>, JsonView)>,
    name: Seq<char>,
    part: Seq<char>,
) -> Seq<(Seq<char>, JsonView)> {
    match member_of(fields, name) {
        Some(object) => match json_get(object, part) {
            Some(value) => with_member(body, name, JsonView::Object(seq![(part, value)])),
            None => body,
        },
        None => body,
    }
}

/// What is sent to OpenRouter.
pub open spec fn openrouter_fields(
    fields: Seq<(Seq<char>, JsonView)>,
    model: Seq<char>,
) -> Seq<(Seq<char>, JsonView)> {
    let a = carried(seq![("model"@, JsonView::Text(model))], fields, routed_names());
    let b = with_part(a, fields, "reasoning"@, "effort"@);
    let c = with_part(b, fields, "text"@, "format"@);
    let d = with_member(c, "stream"@, JsonView::Bool(true));
    with_member(d, "store"@, JsonView::Bool(false))
}

/// Whether the output format is constrained.
pub open spec fn structured(fields: Seq<(Seq<char>, JsonView)>) -> bool {
    match format_of(fields) {
        Some(format) => match text_member(format, "type"@) {
            Some(kind) => kind != "text"@,
            None => false,
        },
        None => false,
    }
}

/// Fields `POST /v1/responses/input_tokens` takes that can change the count.
/// `text` is among them: a JSON Schema output format is part of the input.
pub open spec fn counted_names() -> Seq<Seq<char>> {
    seq![
        "model"@,
        "instructions"@,
        "input"@,
        "tools"@,
        "tool_choice"@,
        "parallel_tool_calls"@,
        "reasoning"@,
        "text"@,
    ]
}

/// Whether an input item declares tools.
pub open spec fn declares_tools(item: JsonView) -> bool {
    text_member(item, "type"@) == Some("additional_tools"@)
}

/// The counted body that declares an item's tools at the top level, in place
/// of every such item.
pub open spec fn hoisted(
    counted: Seq<(Seq<char>, JsonView)>,
    remaining: Seq<JsonView>,
    item: JsonView,
) -> Seq<(Seq<char>, JsonView)> {
    let tools = match json_get(item, "tools"@) {
        Some(tools) => tools,
        None => JsonView::Array(Seq::empty()),
    };
    let a = with_member(counted, "input"@, JsonView::Array(remaining));
    let b = with_member(a, "tools"@, tools);
    match member_of(b, "tool_choice"@) {
        Some(JsonView::Object(_)) => without_member(b, "tool_choice"@),
        _ => b,
    }
}

/// The items that declare tools, or those that do not.
pub open spec fn items_where(items: Seq<JsonView>, declaring: bool) -> Seq<JsonView> {
    items.filter(|item: JsonView| declares_tools(item) == declaring)
}

/// The bodies whose counts together bound the input.
pub open spec fn count_bodies(fields: Seq<(Seq<char>, JsonView)>) -> Seq<JsonView> {
    let counted = carried(Seq::empty(), fields, counted_names());
    let whole = seq![JsonView::Object(counted)];
    match member_of(fields, "input"@) {
        Some(JsonView::Array(items)) => whole + items_where(items, true).map_values(
            |item: JsonView|
                JsonView::Object(hoisted(counted, items_where(items, false), item)),
        ),
        _ => whole,
    }
}

/// Law: every item that declares tools adds one body to the count, and no
/// other does.
pub proof fn tools_are_counted_once_more(fields: Seq<(Seq<char>, JsonView)>)
    ensures
        count_bodies(fields).len() == 1 + (match member_of(fields, "input"@) {
            Some(JsonView::Array(items)) => items_where(items, true).len(),
            _ => 0,
        }),
        count_bodies(fields)[0] == JsonView::Object(
            carried(Seq::empty(), fields, counted_names()),
        ),
{
}

/// Carries the named fields over into a body.
fn carry(
    body: &mut Vec<(String, Json)>,
    fields: &Vec<(String, Json)>,
    names: &Vec<&'static str>,
)
    ensures
        members_view(final(body)@) == carried(
            members_view(old(body)@),
            members_view(fields@),
            str_views(names@),
        ),
{
    let ghost start = members_view(body@);
    let ghost all = str_views(names@);
    assert(all.take(0) =~= Seq::empty());
    let mut i: usize = 0;
    while i < names.len()
        invariant
            i <= names@.len(),
            all == str_views(names@),
            members_view(body@) == carried(start, members_view(fields@), all.take(i as int)),
        decreases names.len() - i,
    {
        proof {
            assert(all.take(i + 1).drop_last() =~= all.take(i as int));
            assert(all.take(i + 1).last() == names@[i as int]@);
        }
        match member(fields, names[i]) {
            Some(value) => {
                put(body, names[i], value.copy());
            },
            None => {},
        }
        i = i + 1;
    }
    assert(all.take(all.len() as int) =~= all);
}

/// Carries one part of an object field over into a body.
fn carry_part(
    body: &mut Vec<(String, Json)>,
    fields: &Vec<(String, Json)>,
    name: &str,
    part: &str,
)
    ensures
        members_view(final(body)@) == with_part(
            members_view(old(body)@),
            members_view(fields@),
            name@,
            part@,
        ),
{
    match member(fields, name) {
        Some(object) => match object.get(part) {
            Some(value) => {
                let copied = value.copy();
                let ghost view = copied@;
                let mut inner: Vec<(String, Json)> = Vec::new();
                inner.push((part.to_owned(), copied));
                proof {
                    assert(members_view(inner@) =~= seq![(part@, view)]);
                    lemma_object_view(inner);
                }
                put(body, name, Json::Object(inner));
            },
            None => {},
        },
        None => {},
    }
}

/// Whether an input item declares tools.
fn is_declaring(item: &Json) -> (yes: bool)
    ensures
        yes == declares_tools(item@),
{
    match item.text_of("type") {
        Some(kind) => str_eq(kind, "additional_tools"),
        None => false,
    }
}

/// Copies of the items that declare tools, or of those that do not.
fn select_items(items: &Vec<Json>, declaring: bool) -> (out: Vec<Json>)
    ensures
        items_view(out@) == items_where(items_view(items@), declaring),
{
    let ghost all = items_view(items@);
    let mut out: Vec<Json> = Vec::new();
    proof {
        reveal(Seq::filter);
        assert(all.take(0) =~= Seq::empty());
        assert(items_view(out@) =~= Seq::empty());
    }
    let mut i: usize = 0;
    while i < items.len()
        invariant
            i <= items@.len(),
            all == items_view(items@),
            items_view(out@) == items_where(all.take(i as int), declaring),
        decreases items.len() - i,
    {
        let ghost done = items_view(out@);
        proof {
            reveal(Seq::filter);
            assert(all.take(i + 1).drop_last() =~= all.take(i as int));
            assert(all.take(i + 1).last() == items@[i as int]@);
        }
        if is_declaring(&items[i]) == declaring {
            let copied = items[i].copy();
            let ghost view = copied@;
            out.push(copied);
            assert(items_view(out@) =~= done.push(view));
        }
        i = i + 1;
    }
    assert(all.take(all.len() as int) =~= all);
    out
}

/// The counted body that declares an item's tools at the top level.
fn hoist(counted: &Vec<(String, Json)>, remaining: &Vec<Json>, item: &Json) -> (body: Json)
    ensures
        body@ == JsonView::Object(
            hoisted(members_view(counted@), items_view(remaining@), item@),
        ),
{
    let whole = copy_items(remaining);
    proof {
        lemma_array_view(whole);
    }
    let mut body = copy_members(counted);
    put(&mut body, "input", Json::Array(whole));
    let tools = match item.get("tools") {
        Some(tools) => tools.copy(),
        None => {
            let none: Vec<Json> = Vec::new();
            proof {
                lemma_array_view(none);
                assert(items_view(none@) =~= Seq::empty());
            }
            Json::Array(none)
        },
    };
    put(&mut body, "tools", tools);
    // A specific tool choice may name a tool this body does not declare.
    let named = match member(&body, "tool_choice") {
        Some(choice) => {
            proof {
                match choice {
                    Json::Array(items) => lemma_array_view(*items),
                    Json::Object(members) => lemma_object_view(*members),
                    _ => {},
                }
            }
            matches!(choice, Json::Object(_))
        },
        None => false,
    };
    if named {
        take_out(&mut body, "tool_choice");
    }
    proof {
        lemma_object_view(body);
    }
    Json::Object(body)
}

/// Copies of items.
fn copy_items(items: &Vec<Json>) -> (out: Vec<Json>)
    ensures
        items_view(out@) == items_view(items@),
{
    let mut out: Vec<Json> = Vec::new();
    let mut i: usize = 0;
    while i < items.len()
        invariant
            i <= items@.len(),
            out@.len() == i,
            forall|k: int| 0 <= k < i ==> (#[trigger] out@[k])@ == items@[k]@,
        decreases items.len() - i,
    {
        out.push(items[i].copy());
        i = i + 1;
    }
    assert(items_view(out@) =~= items_view(items@));
    out
}

impl CreateRequest {
    /// The request in the flat form the structural input bound covers, or
    /// `None` when only the provider's count will do.
    pub fn flat_text(&self) -> (flat: Option<FlatText<'_>>)
        ensures
            flat_view(flat) == flat_of(self@.fields),
    {
        let input: &str = match member(&self.fields, "input") {
            Some(value) => match value.as_text() {
                Some(text) => text,
                None => {
                    return None;
                },
            },
            None => {
                return None;
            },
        };
        let instructions: Option<&str> = match member(&self.fields, "instructions") {
            None => None,
            Some(value) => match value.as_text() {
                Some(text) => Some(text),
                None => {
                    return None;
                },
            },
        };
        let tools = match member(&self.fields, "tools") {
            Some(Json::Array(tools)) => {
                proof {
                    lemma_array_view(*tools);
                }
                tools.len() > 0
            },
            Some(_) => true,
            None => false,
        };
        let formats_output = match self.output_format() {
            Some(format) => match format.text_of("type") {
                Some(kind) => !str_eq(kind, "text"),
                None => true,
            },
            None => false,
        };
        if tools || member(&self.fields, "tool_choice").is_some() || formats_output {
            return None;
        }
        Some(FlatText { instructions, input })
    }

    /// The output format that is asked for.
    fn output_format(&self) -> (format: Option<&Json>)
        ensures
            crate::json::option_view(format) == format_of(self@.fields),
    {
        match member(&self.fields, "text") {
            Some(text) => text.get("format"),
            None => None,
        }
    }

    /// What is sent to OpenAI: the normalized client fields, then the fields
    /// QuotaMiser fixes. Background mode and storage let a response be
    /// cancelled and settled after the client disconnects, and the service
    /// tier is the one the settlement check expects.
    pub fn openai_value(&self) -> (body: Json)
        ensures
            body@ == JsonView::Object(openai_fields(self@.fields)),
    {
        let mut body = copy_members(&self.fields);
        put(&mut body, "background", Json::Bool(true));
        put(&mut body, "store", Json::Bool(true));
        put(&mut body, "stream", Json::Bool(true));
        put(&mut body, "service_tier", Json::text(UPSTREAM_SERVICE_TIER));
        proof {
            lemma_object_view(body);
        }
        Json::Object(body)
    }

    /// The canonical body sent to OpenAI.
    pub fn openai_body(&self) -> (body: Vec<u8>)
        ensures
            body@ == json_bytes(JsonView::Object(openai_fields(self@.fields))),
    {
        write_json(&self.openai_value())
    }

    /// What is sent to OpenRouter, whose free allowance is counted in requests
    /// rather than tokens.
    ///
    /// OpenRouter's Responses endpoint refuses `store: true` outright, so the
    /// retrieval-based settlement OpenAI needs has nothing to work with here,
    /// and needs nothing, since no token is being reserved. Fields whose
    /// behaviour was not measured there are left out rather than guessed at.
    pub fn openrouter_value(&self, model: &str) -> (body: Json)
        ensures
            body@ == JsonView::Object(openrouter_fields(self@.fields, model@)),
    {
        let mut body: Vec<(String, Json)> = Vec::new();
        body.push((String::from_str("model"), Json::text(model)));
        assert(members_view(body@) =~= seq![("model"@, JsonView::Text(model@))]);
        let names: Vec<&'static str> = vec![
            "instructions",
            "input",
            "tools",
            "tool_choice",
            "parallel_tool_calls",
            "max_output_tokens",
            "temperature",
            "top_p",
        ];
        assert(str_views(names@) =~= routed_names());
        carry(&mut body, &self.fields, &names);
        // Only the effort was measured; the summary and the cross-turn context
        // are OpenAI's own.
        carry_part(&mut body, &self.fields, "reasoning", "effort");
        // A structured output format travels; the verbosity knob is OpenAI's.
        carry_part(&mut body, &self.fields, "text", "format");
        put(&mut body, "stream", Json::Bool(true));
        put(&mut body, "store", Json::Bool(false));
        proof {
            lemma_object_view(body);
        }
        Json::Object(body)
    }

    /// The canonical body for OpenRouter.
    pub fn openrouter_body(&self, model: &str) -> (body: Vec<u8>)
        ensures
            body@ == json_bytes(JsonView::Object(openrouter_fields(self@.fields, model@))),
    {
        write_json(&self.openrouter_value(model))
    }

    /// Whether the client asked for a constrained output format, which not
    /// every free model can do.
    pub fn needs_structured_output(&self) -> (yes: bool)
        ensures
            yes == structured(self@.fields),
    {
        match self.output_format() {
            Some(format) => match format.text_of("type") {
                Some(kind) => !str_eq(kind, "text"),
                None => false,
            },
            None => false,
        }
    }

    /// Bodies for `POST /v1/responses/input_tokens`. The sum of their counts
    /// bounds the input the request consumes.
    ///
    /// The first body is the request itself. The count matches generation for
    /// every accepted shape except tools declared in an `additional_tools`
    /// input item: generation renders those tools once more than the count
    /// does. So each `additional_tools` item adds a body that declares its
    /// tools at the top level, in place of every such item, with the rest of
    /// the request unchanged. That body's count covers the tools' rendering
    /// once more, plus the rest of the input again as margin.
    pub fn input_count_bodies(&self) -> (bodies: Vec<Json>)
        ensures
            items_view(bodies@) == count_bodies(self@.fields),
    {
        let names: Vec<&'static str> = vec![
            "model",
            "instructions",
            "input",
            "tools",
            "tool_choice",
            "parallel_tool_calls",
            "reasoning",
            "text",
        ];
        assert(str_views(names@) =~= counted_names());
        let mut counted: Vec<(String, Json)> = Vec::new();
        assert(members_view(counted@) =~= Seq::empty());
        carry(&mut counted, &self.fields, &names);
        let ghost fields = self@.fields;
        let ghost base = carried(Seq::empty(), fields, counted_names());
        let mut bodies: Vec<Json> = Vec::new();
        let first = copy_members(&counted);
        proof {
            lemma_object_view(first);
        }
        bodies.push(Json::Object(first));
        let ghost whole = seq![JsonView::Object(base)];
        assert(items_view(bodies@) =~= whole);
        let items = match member(&self.fields, "input") {
            Some(Json::Array(items)) => items,
            _ => {
                return bodies;
            },
        };
        proof {
            lemma_array_view(*items);
        }
        let declaring = select_items(items, true);
        let remaining = select_items(items, false);
        let ghost extra = items_view(declaring@);
        let ghost rest = items_view(remaining@);
        let ghost make = |item: JsonView| JsonView::Object(hoisted(base, rest, item));
        assert(extra.take(0).map_values(make) =~= Seq::empty());
        let mut i: usize = 0;
        while i < declaring.len()
            invariant
                i <= declaring@.len(),
                extra == items_view(declaring@),
                rest == items_view(remaining@),
                base == members_view(counted@),
                make == (|item: JsonView| JsonView::Object(hoisted(base, rest, item))),
                items_view(bodies@) == whole + extra.take(i as int).map_values(make),
            decreases declaring.len() - i,
        {
            let ghost done = items_view(bodies@);
            let body = hoist(&counted, &remaining, &declaring[i]);
            let ghost view = body@;
            bodies.push(body);
            proof {
                assert(view == make(extra[i as int]));
                assert(items_view(bodies@) =~= done.push(view));
                assert(extra.take(i + 1).map_values(make) =~= extra.take(i as int).map_values(
                    make,
                ).push(view));
            }
            i = i + 1;
        }
        assert(extra.take(extra.len() as int) =~= extra);
        bodies
    }
}

} // verus!
