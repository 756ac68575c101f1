//! Which tool shapes a request carries.
use vstd::prelude::*;
use vstd::string::*;

use crate::bodies::declares_tools;
use crate::json::{
    find_member, items_view, json_get, lemma_array_view, lemma_member_index, lemma_object_view,
    member, member_index, member_of, members_view, text_member, Json, JsonView,
};
use crate::request::CreateRequest;
use crate::text::str_eq;

verus! {

/// Which tool shapes a request carries, wherever they are declared: at the top
/// level, inside a namespace, or in an `additional_tools` input item.
///
/// A provider is chosen against this before anything is sent. Sending a shape
/// the provider refuses wastes a request on a provider whose allowance is
/// counted in requests.
#[derive(Debug, Clone, Copy, PartialEq, Eq, Structural)]
pub struct ToolUsage {
    pub function: bool,
    pub custom: bool,
    pub namespace: bool,
    pub additional_tools: bool,
}

impl Default for ToolUsage {
    fn default() -> (usage: ToolUsage)
        ensures
            usage == no_tools(),
    {
        ToolUsage { function: false, custom: false, namespace: false, additional_tools: false }
    }
}

pub open spec fn no_tools() -> ToolUsage {
    ToolUsage { function: false, custom: false, namespace: false, additional_tools: false }
}

/// Whether a tool is of a type, or is a namespace that holds one.
pub open spec fn tool_has(tool: JsonView, kind: Seq<char>) -> bool
    decreases tool, 1nat,
{
    proof {
        lemma_inside(tool, "tools"@);
    }
    ||| text_member(tool, "type"@) == Some(kind)
    ||| text_member(tool, "type"@) == Some("namespace"@) && match json_get(tool, "tools"@) {
        Some(nested) => match nested {
            JsonView::Array(tools) => tools_have(tools, kind),
            _ => false,
        },
        None => false,
    }
}

/// Whether a tool of a type is among tools.
pub open spec fn tools_have(tools: Seq<JsonView>, kind: Seq<char>) -> bool
    decreases tools, 0nat,
{
    if tools.len() == 0 {
        false
    } else {
        tools_have(tools.drop_last(), kind) || tool_has(tools.last(), kind)
    }
}

/// What an object holds is smaller than the object.
pub proof fn lemma_inside(value: JsonView, key: Seq<char>)
    ensures
        match json_get(value, key) {
            Some(JsonView::Array(items)) => decreases_to!(value => items),
            _ => true,
        },
{
    match value {
        JsonView::Object(members) => {
            lemma_member_index(members, key, 0);
            let at = member_index(members, key, 0);
            if at < members.len() {
                assert(decreases_to!(value => value->Object_0));
                assert(decreases_to!(members => members[at]));
                assert(decreases_to!(members[at] => members[at].1));
                match members[at].1 {
                    JsonView::Array(items) => {
                        assert(decreases_to!(members[at].1 => members[at].1->Array_0));
                    },
                    _ => {},
                }
            }
        },
        _ => {},
    }
}

/// Whether an item declares a tool of a type.
pub open spec fn item_has(item: JsonView, kind: Seq<char>) -> bool {
    declares_tools(item) && match json_get(item, "tools"@) {
        Some(JsonView::Array(tools)) => tools_have(tools, kind),
        _ => false,
    }
}

/// Whether a request carries a tool of a type anywhere.
pub open spec fn carries(fields: Seq<(Seq<char>, JsonView)>, kind: Seq<char>) -> bool {
    ||| match member_of(fields, "tools"@) {
        Some(JsonView::Array(tools)) => tools_have(tools, kind),
        _ => false,
    }
    ||| match member_of(fields, "input"@) {
        Some(JsonView::Array(items)) => exists|i: int|
            0 <= i < items.len() && item_has(#[trigger] items[i], kind),
        _ => false,
    }
}

/// Whether a request declares tools in an input item.
pub open spec fn declares_in_input(fields: Seq<(Seq<char>, JsonView)>) -> bool {
    match member_of(fields, "input"@) {
        Some(JsonView::Array(items)) => exists|i: int|
            0 <= i < items.len() && declares_tools(#[trigger] items[i]),
        _ => false,
    }
}

/// The tool shapes of a request.
pub open spec fn usage_of(fields: Seq<(Seq<char>, JsonView)>) -> ToolUsage {
    ToolUsage {
        function: carries(fields, "function"@),
        custom: carries(fields, "custom"@),
        namespace: carries(fields, "namespace"@),
        additional_tools: declares_in_input(fields),
    }
}

/// A usage with what more tools bring.
pub open spec fn with_tools(usage: ToolUsage, tools: Seq<JsonView>) -> ToolUsage {
    ToolUsage {
        function: usage.function || tools_have(tools, "function"@),
        custom: usage.custom || tools_have(tools, "custom"@),
        namespace: usage.namespace || tools_have(tools, "namespace"@),
        additional_tools: usage.additional_tools,
    }
}

proof fn lemma_tool_types()
    ensures
        "function"@ != "custom"@,
        "function"@ != "namespace"@,
        "custom"@ != "namespace"@,
{
    reveal_strlit("function");
    reveal_strlit("custom");
    reveal_strlit("namespace");
    assert("function"@.len() == 8);
    assert("custom"@.len() == 6);
    assert("namespace"@.len() == 9);
}

/// One more tool adds what it has.
proof fn lemma_next_tool(tools: Seq<JsonView>, n: int, kind: Seq<char>)
    requires
        0 <= n < tools.len(),
    ensures
        tools_have(tools.take(n + 1), kind) == (tools_have(tools.take(n), kind) || tool_has(
            tools[n],
            kind,
        )),
{
    assert(tools.take(n + 1).drop_last() =~= tools.take(n));
}

/// Adds the shapes of tools to a usage.
fn absorb_tools(tools: &Vec<Json>, usage: &mut ToolUsage)
    ensures
        *final(usage) == with_tools(*old(usage), items_view(tools@)),
    decreases tools,
{
    let ghost all = items_view(tools@);
    let ghost before = *usage;
    assert(all.take(0) =~= Seq::empty());
    let mut i: usize = 0;
    while i < tools.len()
        invariant
            i <= tools@.len(),
            all == items_view(tools@),
            *usage == with_tools(before, all.take(i as int)),
        decreases tools.len() - i,
    {
        let tool = &tools[i];
        proof {
            lemma_tool_types();
            assert(all.take(i + 1).drop_last() =~= all.take(i as int));
            assert(all.take(i + 1).last() == tool@);
            assert(decreases_to!(*tools => tools@[i as int]));
            lemma_next_tool(all, i as int, "function"@);
            lemma_next_tool(all, i as int, "custom"@);
            lemma_next_tool(all, i as int, "namespace"@);
        }
        match tool.text_of("type") {
            Some(kind) => {
                if str_eq(kind, "function") {
                    usage.function = true;
                } else if str_eq(kind, "custom") {
                    usage.custom = true;
                } else if str_eq(kind, "namespace") {
                    usage.namespace = true;
                    match tool {
                        Json::Object(members) => {
                            proof {
                                lemma_object_view(*members);
                                lemma_member_index(members_view(members@), "tools"@, 0);
                            }
                            match find_member(members, "tools") {
                                Some(at) => {
                                    let held = &members[at].1;
                                    proof {
                                        assert(decreases_to!(*tool => tool->Object_0));
                                        assert(decreases_to!(*members => members@[at as int]));
                                        assert(decreases_to!(members@[at as int] => held));
                                    }
                                    match held {
                                        Json::Array(nested) => {
                                            proof {
                                                lemma_array_view(*nested);
                                                assert(decreases_to!(*held => held->Array_0));
                                            }
                                            absorb_tools(nested, usage);
                                        },
                                        _ => {},
                                    }
                                },
                                None => {},
                            }
                        },
                        _ => {},
                    }
                }
            },
            None => {},
        }
        i = i + 1;
    }
    assert(all.take(all.len() as int) =~= all);
}

/// A usage with what input items bring.
pub open spec fn with_items(usage: ToolUsage, items: Seq<JsonView>) -> ToolUsage {
    ToolUsage {
        function: usage.function || exists|i: int|
            0 <= i < items.len() && item_has(#[trigger] items[i], "function"@),
        custom: usage.custom || exists|i: int|
            0 <= i < items.len() && item_has(#[trigger] items[i], "custom"@),
        namespace: usage.namespace || exists|i: int|
            0 <= i < items.len() && item_has(#[trigger] items[i], "namespace"@),
        additional_tools: usage.additional_tools || exists|i: int|
            0 <= i < items.len() && declares_tools(#[trigger] items[i]),
    }
}

/// One more item adds what it has.
proof fn lemma_next_item(items: Seq<JsonView>, n: int, kind: Seq<char>)
    requires
        0 <= n < items.len(),
    ensures
        (exists|i: int| 0 <= i < items.take(n + 1).len() && item_has(#[trigger] items.take(n + 1)[i], kind))
            == ((exists|i: int| 0 <= i < items.take(n).len() && item_has(#[trigger] items.take(n)[i], kind))
            || item_has(items[n], kind)),
        (exists|i: int| 0 <= i < items.take(n + 1).len() && declares_tools(#[trigger] items.take(n + 1)[i]))
            == ((exists|i: int| 0 <= i < items.take(n).len() && declares_tools(#[trigger] items.take(n)[i]))
            || declares_tools(items[n])),
{
    let short = items.take(n);
    let long = items.take(n + 1);
    assert(long[n] == items[n]);
    assert forall|i: int| 0 <= i < n implies #[trigger] short[i] == long[i] by {}
    if exists|i: int| 0 <= i < short.len() && item_has(#[trigger] short[i], kind) {
        let i = choose|i: int| 0 <= i < short.len() && item_has(#[trigger] short[i], kind);
        assert(item_has(long[i], kind));
    }
    if exists|i: int| 0 <= i < long.len() && item_has(#[trigger] long[i], kind) {
        let i = choose|i: int| 0 <= i < long.len() && item_has(#[trigger] long[i], kind);
        if i < n {
            assert(item_has(short[i], kind));
        }
    }
    if exists|i: int| 0 <= i < short.len() && declares_tools(#[trigger] short[i]) {
        let i = choose|i: int| 0 <= i < short.len() && declares_tools(#[trigger] short[i]);
        assert(declares_tools(long[i]));
    }
    if exists|i: int| 0 <= i < long.len() && declares_tools(#[trigger] long[i]) {
        let i = choose|i: int| 0 <= i < long.len() && declares_tools(#[trigger] long[i]);
        if i < n {
            assert(declares_tools(short[i]));
        }
    }
}

/// Adds the shapes that input items declare to a usage.
fn absorb_items(items: &Vec<Json>, usage: &mut ToolUsage)
    ensures
        *final(usage) == with_items(*old(usage), items_view(items@)),
{
    let ghost all = items_view(items@);
    let ghost before = *usage;
    assert(all.take(0) =~= Seq::empty());
    let mut i: usize = 0;
    while i < items.len()
        invariant
            i <= items@.len(),
            all == items_view(items@),
            *usage == with_items(before, all.take(i as int)),
        decreases items.len() - i,
    {
        let item = &items[i];
        proof {
            assert(all[i as int] == item@);
            lemma_next_item(all, i as int, "function"@);
            lemma_next_item(all, i as int, "custom"@);
            lemma_next_item(all, i as int, "namespace"@);
        }
        let declaring = match item.text_of("type") {
            Some(kind) => str_eq(kind, "additional_tools"),
            None => false,
        };
        if declaring {
            usage.additional_tools = true;
            match item.get("tools") {
                Some(held) => match held {
                    Json::Array(tools) => {
                        proof {
                            lemma_array_view(*tools);
                        }
                        absorb_tools(tools, usage);
                    },
                    _ => {},
                },
                None => {},
            }
        }
        i = i + 1;
    }
    assert(all.take(all.len() as int) =~= all);
}

impl CreateRequest {
    /// Which tool shapes this request carries.
    pub fn tool_usage(&self) -> (usage: ToolUsage)
        ensures
            usage == usage_of(self@.fields),
    {
        let mut usage = ToolUsage {
            function: false,
            custom: false,
            namespace: false,
            additional_tools: false,
        };
        match member(&self.fields, "tools") {
            Some(held) => match held {
                Json::Array(tools) => {
                    proof {
                        lemma_array_view(*tools);
                    }
                    absorb_tools(tools, &mut usage);
                },
                _ => {},
            },
            None => {},
        }
        let ghost top = usage;
        assert(top == match member_of(self@.fields, "tools"@) {
            Some(JsonView::Array(tools)) => with_tools(no_tools(), tools),
            _ => no_tools(),
        });
        match member(&self.fields, "input") {
            Some(held) => match held {
                Json::Array(items) => {
                    proof {
                        lemma_array_view(*items);
                    }
                    absorb_items(items, &mut usage);
                },
                _ => {},
            },
            None => {},
        }
        assert(usage == match member_of(self@.fields, "input"@) {
            Some(JsonView::Array(items)) => with_items(top, items),
            _ => top,
        });
        assert(usage.function == carries(self@.fields, "function"@));
        assert(usage.custom == carries(self@.fields, "custom"@));
        assert(usage.namespace == carries(self@.fields, "namespace"@));
        usage
    }
}

// ---------------------------------------------------------------------------
// What makes up a usage.

/// Law: tools add up: of two lists, one holds a tool of a type where either
/// does.
pub proof fn tools_add_up(a: Seq<JsonView>, b: Seq<JsonView>, kind: Seq<char>)
    ensures
        tools_have(a + b, kind) <==> tools_have(a, kind) || tools_have(b, kind),
    decreases b.len(),
{
    if b.len() == 0 {
        assert(a + b =~= a);
    } else {
        assert((a + b).drop_last() =~= a + b.drop_last());
        assert((a + b).last() == b.last());
        tools_add_up(a, b.drop_last(), kind);
    }
}

/// Law: a tool counts as what it says it is. A namespace counts as one, and as
/// every tool in it besides; any other tool counts as nothing else.
pub proof fn a_tool_counts_as_what_it_is(tool: JsonView, kind: Seq<char>)
    ensures
        tools_have(seq![tool], kind) <==> match json_get(tool, "type"@) {
            Some(JsonView::Text(own)) => own == kind || (own == "namespace"@ && match json_get(
                tool,
                "tools"@,
            ) {
                Some(JsonView::Array(nested)) => tools_have(nested, kind),
                _ => false,
            }),
            _ => false,
        },
        tools_have(Seq::empty(), kind) == false,
{
    let one = seq![tool];
    assert(one.drop_last() =~= Seq::<JsonView>::empty());
    assert(one.last() == tool);
    reveal_with_fuel(tools_have, 2);
}

/// Whether a request declares tools of a type: among its own, or in an input
/// item that declares more.
pub open spec fn declared(fields: Seq<(Seq<char>, JsonView)>, kind: Seq<char>) -> bool {
    ||| member_of(fields, "tools"@) matches Some(JsonView::Array(tools)) && tools_have(tools, kind)
    ||| member_of(fields, "input"@) matches Some(JsonView::Array(items)) && exists|i: int|
        {
            &&& 0 <= i < items.len()
            &&& json_get(#[trigger] items[i], "type"@) == Some(
                JsonView::Text("additional_tools"@),
            )
            &&& json_get(items[i], "tools"@) matches Some(JsonView::Array(tools))
            &&& tools_have(tools, kind)
        }
}

/// Law: a usage tells of functions, custom tools and namespaces exactly where
/// the request declares them, among its tools or in an input item, and of
/// additional tools exactly where an input item declares some.
pub proof fn a_usage_tells_what_is_declared(fields: Seq<(Seq<char>, JsonView)>)
    ensures
        ({
            let usage = usage_of(fields);
            &&& usage.function == declared(fields, "function"@)
            &&& usage.custom == declared(fields, "custom"@)
            &&& usage.namespace == declared(fields, "namespace"@)
            &&& usage.additional_tools <==> (member_of(fields, "input"@) matches Some(
                JsonView::Array(items),
            ) && exists|i: int|
                0 <= i < items.len() && json_get(#[trigger] items[i], "type"@) == Some(
                    JsonView::Text("additional_tools"@),
                ))
        }),
{
    lemma_declared(fields, "function"@);
    lemma_declared(fields, "custom"@);
    lemma_declared(fields, "namespace"@);
    if let Some(JsonView::Array(items)) = member_of(fields, "input"@) {
        assert forall|i: int| 0 <= i < items.len() implies (declares_tools(#[trigger] items[i])
            <==> json_get(items[i], "type"@) == Some(JsonView::Text("additional_tools"@))) by {}
        if usage_of(fields).additional_tools {
            let i = choose|i: int| 0 <= i < items.len() && declares_tools(#[trigger] items[i]);
            assert(json_get(items[i], "type"@) == Some(JsonView::Text("additional_tools"@)));
        }
    }
}

proof fn lemma_declared(fields: Seq<(Seq<char>, JsonView)>, kind: Seq<char>)
    ensures
        carries(fields, kind) == declared(fields, kind),
{
    if let Some(JsonView::Array(items)) = member_of(fields, "input"@) {
        if exists|i: int| 0 <= i < items.len() && item_has(#[trigger] items[i], kind) {
            let i = choose|i: int| 0 <= i < items.len() && item_has(#[trigger] items[i], kind);
            assert(json_get(items[i], "type"@) == Some(JsonView::Text("additional_tools"@)));
        }
        if declared(fields, kind) && !(member_of(fields, "tools"@) matches Some(
            JsonView::Array(tools),
        ) && tools_have(tools, kind)) {
            let i = choose|i: int|
                {
                    &&& 0 <= i < items.len()
                    &&& json_get(#[trigger] items[i], "type"@) == Some(
                        JsonView::Text("additional_tools"@),
                    )
                    &&& json_get(items[i], "tools"@) matches Some(JsonView::Array(tools))
                    &&& tools_have(tools, kind)
                };
            assert(item_has(items[i], kind));
        }
    }
}

} // verus!
