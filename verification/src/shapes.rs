//! What a request may hold: the object shapes, the rule for each of their
//! fields, and the enumerated values.
//!
//! Deny by default. A field, input item, content part, tool type or
//! enumerated value that is not listed here is refused.
use vstd::prelude::*;

use crate::text::str_eq;

verus! {

/// What is asked of a field's value.
#[derive(Debug, Clone, Copy, PartialEq, Eq, Structural)]
pub enum Rule {
    /// Accepted whatever it holds, and removed from the normalized body.
    Strip,
    Text,
    NonEmptyText,
    Bool,
    BoolOrNull,
    AnyNumber,
    PositiveInteger,
    AnyObject,
    /// A deferred tool is only reachable through `tool_search`, which is
    /// refused.
    NotDeferred,
    InlineImage,
    OneOf(Choice),
    Input,
    MessageContent,
    ToolOutput,
    SummaryParts,
    ReasoningParts,
    ToolList,
    NamespaceMembers,
    CustomFormat,
    ToolChoice,
    OutputFormat,
    IncludeList,
    Metadata,
    ObjectOf(Shape),
}

/// A set of enumerated values.
#[derive(Debug, Clone, Copy, PartialEq, Eq, Structural)]
pub enum Choice {
    MessageRole,
    DeveloperRole,
    MessagePhase,
    ImageDetail,
    GrammarSyntax,
    /// Only efforts whose cost is output tokens within the output bound. Newer
    /// levels are refused until measured.
    ReasoningEffort,
    ReasoningSummary,
    ReasoningContext,
    Verbosity,
    CacheTtl,
}

/// The kinds of object a request may hold.
#[derive(Debug, Clone, Copy, PartialEq, Eq, Structural)]
pub enum Shape {
    /// A message of the conversation.
    Message,
    /// Replayed with its encrypted content, which the provider counts.
    ReasoningItem,
    FunctionCall,
    FunctionCallOutput,
    CustomToolCall,
    CustomToolCallOutput,
    /// Codex declares tools this way for its Lite models.
    AdditionalTools,
    InputText,
    OutputText,
    RefusalPart,
    /// Inline images only: a remote URL could serve different content when
    /// counted and when generated.
    InputImage,
    SummaryText,
    ReasoningText,
    FunctionTool,
    CustomTool,
    NamespaceTool,
    TextFormat,
    GrammarFormat,
    NamedToolChoice,
    Reasoning,
    TextOptions,
    PlainOutputFormat,
    JsonSchemaFormat,
    PromptCacheOptions,
}

/// The values a choice accepts.
pub open spec fn choices_of(choice: Choice) -> Seq<Seq<char>> {
    match choice {
        Choice::MessageRole => seq!["user"@, "assistant"@, "system"@, "developer"@],
        Choice::DeveloperRole => seq!["developer"@],
        Choice::MessagePhase => seq!["commentary"@, "final_answer"@],
        Choice::ImageDetail => seq!["auto"@, "low"@, "high"@, "original"@],
        Choice::GrammarSyntax => seq!["lark"@, "regex"@],
        Choice::ReasoningEffort => seq!["none"@, "minimal"@, "low"@, "medium"@, "high"@, "xhigh"@],
        Choice::ReasoningSummary => seq!["auto"@, "concise"@, "detailed"@, "none"@],
        Choice::ReasoningContext => seq!["auto"@, "current_turn"@, "all_turns"@],
        Choice::Verbosity => seq!["low"@, "medium"@, "high"@],
        Choice::CacheTtl => seq!["30m"@],
    }
}

/// The values a choice accepts.
pub fn accepted_values(choice: Choice) -> (values: Vec<&'static str>)
    ensures
        str_views(values@) == choices_of(choice),
{
    let values: Vec<&'static str> = match choice {
        Choice::MessageRole => vec!["user", "assistant", "system", "developer"],
        Choice::DeveloperRole => vec!["developer"],
        Choice::MessagePhase => vec!["commentary", "final_answer"],
        Choice::ImageDetail => vec!["auto", "low", "high", "original"],
        Choice::GrammarSyntax => vec!["lark", "regex"],
        Choice::ReasoningEffort => vec!["none", "minimal", "low", "medium", "high", "xhigh"],
        Choice::ReasoningSummary => vec!["auto", "concise", "detailed", "none"],
        Choice::ReasoningContext => vec!["auto", "current_turn", "all_turns"],
        Choice::Verbosity => vec!["low", "medium", "high"],
        Choice::CacheTtl => vec!["30m"],
    };
    assert(str_views(values@) =~= choices_of(choice));
    values
}

/// The characters of each of a list of strings.
pub open spec fn str_views(items: Seq<&str>) -> Seq<Seq<char>> {
    Seq::new(items.len(), |i: int| items[i]@)
}

/// What a shape is called in messages.
pub open spec fn shape_name(shape: Shape) -> Seq<char> {
    match shape {
        Shape::Message => "message"@,
        Shape::ReasoningItem => "reasoning item"@,
        Shape::FunctionCall => "function_call item"@,
        Shape::FunctionCallOutput => "function_call_output item"@,
        Shape::CustomToolCall => "custom_tool_call item"@,
        Shape::CustomToolCallOutput => "custom_tool_call_output item"@,
        Shape::AdditionalTools => "additional_tools item"@,
        Shape::InputText => "input_text part"@,
        Shape::OutputText => "output_text part"@,
        Shape::RefusalPart => "refusal part"@,
        Shape::InputImage => "input_image part"@,
        Shape::SummaryText => "summary_text part"@,
        Shape::ReasoningText => "reasoning_text part"@,
        Shape::FunctionTool => "function tool"@,
        Shape::CustomTool => "custom tool"@,
        Shape::NamespaceTool => "namespace tool"@,
        Shape::TextFormat => "custom tool format"@,
        Shape::GrammarFormat => "grammar format"@,
        Shape::NamedToolChoice => "tool_choice"@,
        Shape::Reasoning => "reasoning"@,
        Shape::TextOptions => "text"@,
        Shape::PlainOutputFormat => "text.format"@,
        Shape::JsonSchemaFormat => "json_schema format"@,
        Shape::PromptCacheOptions => "prompt_cache_options"@,
    }
}

/// What a shape is called in messages.
pub fn name_of(shape: Shape) -> (name: &'static str)
    ensures
        name@ == shape_name(shape),
{
    match shape {
        Shape::Message => "message",
        Shape::ReasoningItem => "reasoning item",
        Shape::FunctionCall => "function_call item",
        Shape::FunctionCallOutput => "function_call_output item",
        Shape::CustomToolCall => "custom_tool_call item",
        Shape::CustomToolCallOutput => "custom_tool_call_output item",
        Shape::AdditionalTools => "additional_tools item",
        Shape::InputText => "input_text part",
        Shape::OutputText => "output_text part",
        Shape::RefusalPart => "refusal part",
        Shape::InputImage => "input_image part",
        Shape::SummaryText => "summary_text part",
        Shape::ReasoningText => "reasoning_text part",
        Shape::FunctionTool => "function tool",
        Shape::CustomTool => "custom tool",
        Shape::NamespaceTool => "namespace tool",
        Shape::TextFormat => "custom tool format",
        Shape::GrammarFormat => "grammar format",
        Shape::NamedToolChoice => "tool_choice",
        Shape::Reasoning => "reasoning",
        Shape::TextOptions => "text",
        Shape::PlainOutputFormat => "text.format",
        Shape::JsonSchemaFormat => "json_schema format",
        Shape::PromptCacheOptions => "prompt_cache_options",
    }
}

/// The fields a shape must have once it is normalized.
pub open spec fn required_of(shape: Shape) -> Seq<Seq<char>> {
    match shape {
        Shape::Message => seq!["role"@, "content"@],
        Shape::ReasoningItem => seq!["encrypted_content"@],
        Shape::FunctionCall => seq!["call_id"@, "name"@, "arguments"@],
        Shape::FunctionCallOutput => seq!["call_id"@, "output"@],
        Shape::CustomToolCall => seq!["call_id"@, "name"@, "input"@],
        Shape::CustomToolCallOutput => seq!["call_id"@, "output"@],
        Shape::AdditionalTools => seq!["role"@, "tools"@],
        Shape::InputText => seq!["text"@],
        Shape::OutputText => seq!["text"@],
        Shape::RefusalPart => seq!["refusal"@],
        Shape::InputImage => seq!["image_url"@],
        Shape::SummaryText => seq!["text"@],
        Shape::ReasoningText => seq!["text"@],
        Shape::FunctionTool => seq!["name"@],
        Shape::CustomTool => seq!["name"@],
        Shape::NamespaceTool => seq!["name"@, "tools"@],
        Shape::GrammarFormat => seq!["syntax"@, "definition"@],
        Shape::NamedToolChoice => seq!["name"@],
        Shape::JsonSchemaFormat => seq!["name"@, "schema"@],
        _ => Seq::empty(),
    }
}

/// The fields a shape must have once it is normalized.
pub fn required_fields(shape: Shape) -> (names: Vec<&'static str>)
    ensures
        str_views(names@) == required_of(shape),
{
    let names: Vec<&'static str> = match shape {
        Shape::Message => vec!["role", "content"],
        Shape::ReasoningItem => vec!["encrypted_content"],
        Shape::FunctionCall => vec!["call_id", "name", "arguments"],
        Shape::FunctionCallOutput => vec!["call_id", "output"],
        Shape::CustomToolCall => vec!["call_id", "name", "input"],
        Shape::CustomToolCallOutput => vec!["call_id", "output"],
        Shape::AdditionalTools => vec!["role", "tools"],
        Shape::InputText => vec!["text"],
        Shape::OutputText => vec!["text"],
        Shape::RefusalPart => vec!["refusal"],
        Shape::InputImage => vec!["image_url"],
        Shape::SummaryText => vec!["text"],
        Shape::ReasoningText => vec!["text"],
        Shape::FunctionTool => vec!["name"],
        Shape::CustomTool => vec!["name"],
        Shape::NamespaceTool => vec!["name", "tools"],
        Shape::GrammarFormat => vec!["syntax", "definition"],
        Shape::NamedToolChoice => vec!["name"],
        Shape::JsonSchemaFormat => vec!["name", "schema"],
        _ => Vec::new(),
    };
    assert(str_views(names@) =~= required_of(shape));
    names
}

/// The rule for a field of a shape; `None` where the field is not listed.
pub open spec fn rule_of(shape: Shape, key: Seq<char>) -> Option<Rule> {
    match shape {
        Shape::Message => if key == "type"@ {
            Some(Rule::Text)
        } else if key == "id"@ {
            Some(Rule::Strip)
        } else if key == "status"@ {
            Some(Rule::Strip)
        } else if key == "role"@ {
            Some(Rule::OneOf(Choice::MessageRole))
        } else if key == "content"@ {
            Some(Rule::MessageContent)
        } else if key == "phase"@ {
            Some(Rule::OneOf(Choice::MessagePhase))
        } else {
            None
        },
        Shape::ReasoningItem => if key == "type"@ {
            Some(Rule::Text)
        } else if key == "id"@ {
            Some(Rule::Strip)
        } else if key == "status"@ {
            Some(Rule::Strip)
        } else if key == "summary"@ {
            Some(Rule::SummaryParts)
        } else if key == "content"@ {
            Some(Rule::ReasoningParts)
        } else if key == "encrypted_content"@ {
            Some(Rule::NonEmptyText)
        } else {
            None
        },
        Shape::FunctionCall => if key == "type"@ {
            Some(Rule::Text)
        } else if key == "id"@ {
            Some(Rule::Strip)
        } else if key == "status"@ {
            Some(Rule::Strip)
        } else if key == "call_id"@ {
            Some(Rule::NonEmptyText)
        } else if key == "name"@ {
            Some(Rule::NonEmptyText)
        } else if key == "namespace"@ {
            Some(Rule::Text)
        } else if key == "arguments"@ {
            Some(Rule::Text)
        } else {
            None
        },
        Shape::FunctionCallOutput => if key == "type"@ {
            Some(Rule::Text)
        } else if key == "id"@ {
            Some(Rule::Strip)
        } else if key == "status"@ {
            Some(Rule::Strip)
        } else if key == "call_id"@ {
            Some(Rule::NonEmptyText)
        } else if key == "name"@ {
            Some(Rule::Text)
        } else if key == "namespace"@ {
            Some(Rule::Text)
        } else if key == "output"@ {
            Some(Rule::ToolOutput)
        } else {
            None
        },
        Shape::CustomToolCall => if key == "type"@ {
            Some(Rule::Text)
        } else if key == "id"@ {
            Some(Rule::Strip)
        } else if key == "status"@ {
            Some(Rule::Strip)
        } else if key == "call_id"@ {
            Some(Rule::NonEmptyText)
        } else if key == "name"@ {
            Some(Rule::NonEmptyText)
        } else if key == "namespace"@ {
            Some(Rule::Text)
        } else if key == "input"@ {
            Some(Rule::Text)
        } else {
            None
        },
        Shape::CustomToolCallOutput => if key == "type"@ {
            Some(Rule::Text)
        } else if key == "id"@ {
            Some(Rule::Strip)
        } else if key == "status"@ {
            Some(Rule::Strip)
        } else if key == "call_id"@ {
            Some(Rule::NonEmptyText)
        } else if key == "name"@ {
            Some(Rule::Text)
        } else if key == "output"@ {
            Some(Rule::ToolOutput)
        } else {
            None
        },
        Shape::AdditionalTools => if key == "type"@ {
            Some(Rule::Text)
        } else if key == "id"@ {
            Some(Rule::Strip)
        } else if key == "role"@ {
            Some(Rule::OneOf(Choice::DeveloperRole))
        } else if key == "tools"@ {
            Some(Rule::ToolList)
        } else {
            None
        },
        Shape::InputText => if key == "type"@ {
            Some(Rule::Text)
        } else if key == "text"@ {
            Some(Rule::Text)
        } else {
            None
        },
        Shape::OutputText => if key == "type"@ {
            Some(Rule::Text)
        } else if key == "text"@ {
            Some(Rule::Text)
        } else if key == "annotations"@ {
            Some(Rule::Strip)
        } else if key == "logprobs"@ {
            Some(Rule::Strip)
        } else {
            None
        },
        Shape::RefusalPart => if key == "type"@ {
            Some(Rule::Text)
        } else if key == "refusal"@ {
            Some(Rule::Text)
        } else {
            None
        },
        Shape::InputImage => if key == "type"@ {
            Some(Rule::Text)
        } else if key == "image_url"@ {
            Some(Rule::InlineImage)
        } else if key == "detail"@ {
            Some(Rule::OneOf(Choice::ImageDetail))
        } else {
            None
        },
        Shape::SummaryText => if key == "type"@ {
            Some(Rule::Text)
        } else if key == "text"@ {
            Some(Rule::Text)
        } else {
            None
        },
        Shape::ReasoningText => if key == "type"@ {
            Some(Rule::Text)
        } else if key == "text"@ {
            Some(Rule::Text)
        } else {
            None
        },
        Shape::FunctionTool => if key == "type"@ {
            Some(Rule::Text)
        } else if key == "name"@ {
            Some(Rule::NonEmptyText)
        } else if key == "description"@ {
            Some(Rule::Text)
        } else if key == "parameters"@ {
            Some(Rule::AnyObject)
        } else if key == "strict"@ {
            Some(Rule::BoolOrNull)
        } else if key == "defer_loading"@ {
            Some(Rule::NotDeferred)
        } else {
            None
        },
        Shape::CustomTool => if key == "type"@ {
            Some(Rule::Text)
        } else if key == "name"@ {
            Some(Rule::NonEmptyText)
        } else if key == "description"@ {
            Some(Rule::Text)
        } else if key == "format"@ {
            Some(Rule::CustomFormat)
        } else if key == "defer_loading"@ {
            Some(Rule::NotDeferred)
        } else {
            None
        },
        Shape::NamespaceTool => if key == "type"@ {
            Some(Rule::Text)
        } else if key == "name"@ {
            Some(Rule::NonEmptyText)
        } else if key == "description"@ {
            Some(Rule::Text)
        } else if key == "tools"@ {
            Some(Rule::NamespaceMembers)
        } else {
            None
        },
        Shape::TextFormat => if key == "type"@ {
            Some(Rule::Text)
        } else {
            None
        },
        Shape::GrammarFormat => if key == "type"@ {
            Some(Rule::Text)
        } else if key == "syntax"@ {
            Some(Rule::OneOf(Choice::GrammarSyntax))
        } else if key == "definition"@ {
            Some(Rule::Text)
        } else {
            None
        },
        Shape::NamedToolChoice => if key == "type"@ {
            Some(Rule::Text)
        } else if key == "name"@ {
            Some(Rule::NonEmptyText)
        } else {
            None
        },
        Shape::Reasoning => if key == "effort"@ {
            Some(Rule::OneOf(Choice::ReasoningEffort))
        } else if key == "summary"@ {
            Some(Rule::OneOf(Choice::ReasoningSummary))
        } else if key == "context"@ {
            Some(Rule::OneOf(Choice::ReasoningContext))
        } else {
            None
        },
        Shape::TextOptions => if key == "verbosity"@ {
            Some(Rule::OneOf(Choice::Verbosity))
        } else if key == "format"@ {
            Some(Rule::OutputFormat)
        } else {
            None
        },
        Shape::PlainOutputFormat => if key == "type"@ {
            Some(Rule::Text)
        } else {
            None
        },
        Shape::JsonSchemaFormat => if key == "type"@ {
            Some(Rule::Text)
        } else if key == "name"@ {
            Some(Rule::NonEmptyText)
        } else if key == "schema"@ {
            Some(Rule::AnyObject)
        } else if key == "strict"@ {
            Some(Rule::BoolOrNull)
        } else if key == "description"@ {
            Some(Rule::Text)
        } else {
            None
        },
        Shape::PromptCacheOptions => if key == "ttl"@ {
            Some(Rule::OneOf(Choice::CacheTtl))
        } else {
            None
        },
    }
}

/// The rule for a field of a shape; `None` where the field is not listed.
pub fn rule_for(shape: Shape, key: &str) -> (rule: Option<Rule>)
    ensures
        rule == rule_of(shape, key@),
{
    match shape {
        Shape::Message => if str_eq(key, "type") {
            Some(Rule::Text)
        } else if str_eq(key, "id") {
            Some(Rule::Strip)
        } else if str_eq(key, "status") {
            Some(Rule::Strip)
        } else if str_eq(key, "role") {
            Some(Rule::OneOf(Choice::MessageRole))
        } else if str_eq(key, "content") {
            Some(Rule::MessageContent)
        } else if str_eq(key, "phase") {
            Some(Rule::OneOf(Choice::MessagePhase))
        } else {
            None
        },
        Shape::ReasoningItem => if str_eq(key, "type") {
            Some(Rule::Text)
        } else if str_eq(key, "id") {
            Some(Rule::Strip)
        } else if str_eq(key, "status") {
            Some(Rule::Strip)
        } else if str_eq(key, "summary") {
            Some(Rule::SummaryParts)
        } else if str_eq(key, "content") {
            Some(Rule::ReasoningParts)
        } else if str_eq(key, "encrypted_content") {
            Some(Rule::NonEmptyText)
        } else {
            None
        },
        Shape::FunctionCall => if str_eq(key, "type") {
            Some(Rule::Text)
        } else if str_eq(key, "id") {
            Some(Rule::Strip)
        } else if str_eq(key, "status") {
            Some(Rule::Strip)
        } else if str_eq(key, "call_id") {
            Some(Rule::NonEmptyText)
        } else if str_eq(key, "name") {
            Some(Rule::NonEmptyText)
        } else if str_eq(key, "namespace") {
            Some(Rule::Text)
        } else if str_eq(key, "arguments") {
            Some(Rule::Text)
        } else {
            None
        },
        Shape::FunctionCallOutput => if str_eq(key, "type") {
            Some(Rule::Text)
        } else if str_eq(key, "id") {
            Some(Rule::Strip)
        } else if str_eq(key, "status") {
            Some(Rule::Strip)
        } else if str_eq(key, "call_id") {
            Some(Rule::NonEmptyText)
        } else if str_eq(key, "name") {
            Some(Rule::Text)
        } else if str_eq(key, "namespace") {
            Some(Rule::Text)
        } else if str_eq(key, "output") {
            Some(Rule::ToolOutput)
        } else {
            None
        },
        Shape::CustomToolCall => if str_eq(key, "type") {
            Some(Rule::Text)
        } else if str_eq(key, "id") {
            Some(Rule::Strip)
        } else if str_eq(key, "status") {
            Some(Rule::Strip)
        } else if str_eq(key, "call_id") {
            Some(Rule::NonEmptyText)
        } else if str_eq(key, "name") {
            Some(Rule::NonEmptyText)
        } else if str_eq(key, "namespace") {
            Some(Rule::Text)
        } else if str_eq(key, "input") {
            Some(Rule::Text)
        } else {
            None
        },
        Shape::CustomToolCallOutput => if str_eq(key, "type") {
            Some(Rule::Text)
        } else if str_eq(key, "id") {
            Some(Rule::Strip)
        } else if str_eq(key, "status") {
            Some(Rule::Strip)
        } else if str_eq(key, "call_id") {
            Some(Rule::NonEmptyText)
        } else if str_eq(key, "name") {
            Some(Rule::Text)
        } else if str_eq(key, "output") {
            Some(Rule::ToolOutput)
        } else {
            None
        },
        Shape::AdditionalTools => if str_eq(key, "type") {
            Some(Rule::Text)
        } else if str_eq(key, "id") {
            Some(Rule::Strip)
        } else if str_eq(key, "role") {
            Some(Rule::OneOf(Choice::DeveloperRole))
        } else if str_eq(key, "tools") {
            Some(Rule::ToolList)
        } else {
            None
        },
        Shape::InputText => if str_eq(key, "type") {
            Some(Rule::Text)
        } else if str_eq(key, "text") {
            Some(Rule::Text)
        } else {
            None
        },
        Shape::OutputText => if str_eq(key, "type") {
            Some(Rule::Text)
        } else if str_eq(key, "text") {
            Some(Rule::Text)
        } else if str_eq(key, "annotations") {
            Some(Rule::Strip)
        } else if str_eq(key, "logprobs") {
            Some(Rule::Strip)
        } else {
            None
        },
        Shape::RefusalPart => if str_eq(key, "type") {
            Some(Rule::Text)
        } else if str_eq(key, "refusal") {
            Some(Rule::Text)
        } else {
            None
        },
        Shape::InputImage => if str_eq(key, "type") {
            Some(Rule::Text)
        } else if str_eq(key, "image_url") {
            Some(Rule::InlineImage)
        } else if str_eq(key, "detail") {
            Some(Rule::OneOf(Choice::ImageDetail))
        } else {
            None
        },
        Shape::SummaryText => if str_eq(key, "type") {
            Some(Rule::Text)
        } else if str_eq(key, "text") {
            Some(Rule::Text)
        } else {
            None
        },
        Shape::ReasoningText => if str_eq(key, "type") {
            Some(Rule::Text)
        } else if str_eq(key, "text") {
            Some(Rule::Text)
        } else {
            None
        },
        Shape::FunctionTool => if str_eq(key, "type") {
            Some(Rule::Text)
        } else if str_eq(key, "name") {
            Some(Rule::NonEmptyText)
        } else if str_eq(key, "description") {
            Some(Rule::Text)
        } else if str_eq(key, "parameters") {
            Some(Rule::AnyObject)
        } else if str_eq(key, "strict") {
            Some(Rule::BoolOrNull)
        } else if str_eq(key, "defer_loading") {
            Some(Rule::NotDeferred)
        } else {
            None
        },
        Shape::CustomTool => if str_eq(key, "type") {
            Some(Rule::Text)
        } else if str_eq(key, "name") {
            Some(Rule::NonEmptyText)
        } else if str_eq(key, "description") {
            Some(Rule::Text)
        } else if str_eq(key, "format") {
            Some(Rule::CustomFormat)
        } else if str_eq(key, "defer_loading") {
            Some(Rule::NotDeferred)
        } else {
            None
        },
        Shape::NamespaceTool => if str_eq(key, "type") {
            Some(Rule::Text)
        } else if str_eq(key, "name") {
            Some(Rule::NonEmptyText)
        } else if str_eq(key, "description") {
            Some(Rule::Text)
        } else if str_eq(key, "tools") {
            Some(Rule::NamespaceMembers)
        } else {
            None
        },
        Shape::TextFormat => if str_eq(key, "type") {
            Some(Rule::Text)
        } else {
            None
        },
        Shape::GrammarFormat => if str_eq(key, "type") {
            Some(Rule::Text)
        } else if str_eq(key, "syntax") {
            Some(Rule::OneOf(Choice::GrammarSyntax))
        } else if str_eq(key, "definition") {
            Some(Rule::Text)
        } else {
            None
        },
        Shape::NamedToolChoice => if str_eq(key, "type") {
            Some(Rule::Text)
        } else if str_eq(key, "name") {
            Some(Rule::NonEmptyText)
        } else {
            None
        },
        Shape::Reasoning => if str_eq(key, "effort") {
            Some(Rule::OneOf(Choice::ReasoningEffort))
        } else if str_eq(key, "summary") {
            Some(Rule::OneOf(Choice::ReasoningSummary))
        } else if str_eq(key, "context") {
            Some(Rule::OneOf(Choice::ReasoningContext))
        } else {
            None
        },
        Shape::TextOptions => if str_eq(key, "verbosity") {
            Some(Rule::OneOf(Choice::Verbosity))
        } else if str_eq(key, "format") {
            Some(Rule::OutputFormat)
        } else {
            None
        },
        Shape::PlainOutputFormat => if str_eq(key, "type") {
            Some(Rule::Text)
        } else {
            None
        },
        Shape::JsonSchemaFormat => if str_eq(key, "type") {
            Some(Rule::Text)
        } else if str_eq(key, "name") {
            Some(Rule::NonEmptyText)
        } else if str_eq(key, "schema") {
            Some(Rule::AnyObject)
        } else if str_eq(key, "strict") {
            Some(Rule::BoolOrNull)
        } else if str_eq(key, "description") {
            Some(Rule::Text)
        } else {
            None
        },
        Shape::PromptCacheOptions => if str_eq(key, "ttl") {
            Some(Rule::OneOf(Choice::CacheTtl))
        } else {
            None
        },
    }
}

} // verus!
