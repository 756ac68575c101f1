//! Why a request is refused: every refusal names the offending JSON path and
//! says what to change.
use vstd::prelude::*;
use vstd::string::*;

use crate::error_body::{invalid_request_body, invalid_request_view};
use crate::json::Json;
use crate::text::{str_eq, str_view};

verus! {

/// Changes whenever what is accepted changes.
pub const ALLOWLIST_VERSION: &'static str = "responses-ingress/1";

/// The hint for fields only Codex's built-in `openai` provider sends.
pub const CODEX_PROVIDER_HINT: &'static str =
    "If this request comes from Codex, configure QuotaMiser as a custom model provider rather than overriding the built-in `openai` provider.";

#[derive(Debug, Clone, Copy, PartialEq, Eq, Structural)]
pub enum RejectionCode {
    InvalidJson,
    DuplicateKey,
    UnsupportedParameter,
    MissingParameter,
    InvalidValue,
    ServerSideState,
    HostedTool,
    UnsupportedInputItem,
    RemoteReference,
}

#[derive(Debug, PartialEq, Eq)]
pub struct Rejection {
    pub code: RejectionCode,
    /// The offending JSON path, such as `input[3].content[0].image_url`.
    pub param: Option<String>,
    pub message: String,
}

pub struct RejectionView {
    pub code: RejectionCode,
    pub param: Option<Seq<char>>,
    pub message: Seq<char>,
}

impl View for Rejection {
    type V = RejectionView;

    open spec fn view(&self) -> RejectionView {
        RejectionView {
            code: self.code,
            param: match self.param {
                Some(path) => Some(path@),
                None => None,
            },
            message: self.message@,
        }
    }
}

/// The name a code has in an error body.
pub open spec fn code_name(code: RejectionCode) -> Seq<char> {
    match code {
        RejectionCode::InvalidJson => "invalid_json"@,
        RejectionCode::DuplicateKey => "duplicate_key"@,
        RejectionCode::UnsupportedParameter => "unsupported_parameter"@,
        RejectionCode::MissingParameter => "missing_required_parameter"@,
        RejectionCode::InvalidValue => "invalid_value"@,
        RejectionCode::ServerSideState => "server_side_state_unsupported"@,
        RejectionCode::HostedTool => "hosted_tool_unsupported"@,
        RejectionCode::UnsupportedInputItem => "unsupported_input_item"@,
        RejectionCode::RemoteReference => "remote_reference_unsupported"@,
    }
}

impl RejectionCode {
    pub fn as_str(self) -> (name: &'static str)
        ensures
            name@ == code_name(self),
    {
        match self {
            RejectionCode::InvalidJson => "invalid_json",
            RejectionCode::DuplicateKey => "duplicate_key",
            RejectionCode::UnsupportedParameter => "unsupported_parameter",
            RejectionCode::MissingParameter => "missing_required_parameter",
            RejectionCode::InvalidValue => "invalid_value",
            RejectionCode::ServerSideState => "server_side_state_unsupported",
            RejectionCode::HostedTool => "hosted_tool_unsupported",
            RejectionCode::UnsupportedInputItem => "unsupported_input_item",
            RejectionCode::RemoteReference => "remote_reference_unsupported",
        }
    }
}

impl Rejection {
    pub fn new(code: RejectionCode, param: Option<&str>, message: String) -> (rejection: Rejection)
        ensures
            rejection@ == (RejectionView {
                code,
                param: str_view(param),
                message: message@,
            }),
    {
        Rejection {
            code,
            param: match param {
                Some(path) => Some(path.to_owned()),
                None => None,
            },
            message,
        }
    }

    /// The body of the 400 returned to the client.
    pub fn error_body(&self) -> (body: Json)
        ensures
            body@ == invalid_request_view(self@.message, self@.param, code_name(self.code)),
    {
        match &self.param {
            Some(path) => invalid_request_body(
                self.message.as_str(),
                Some(path.as_str()),
                self.code.as_str(),
            ),
            None => invalid_request_body(self.message.as_str(), None, self.code.as_str()),
        }
    }
}

/// A rejection of what stands at a path.
pub open spec fn rejected(code: RejectionCode, path: Seq<char>, message: Seq<char>) -> RejectionView {
    RejectionView { code, param: Some(path), message }
}

/// The path of a field below a path.
pub open spec fn joined_path(path: Seq<char>, key: Seq<char>) -> Seq<char> {
    if path.len() == 0 {
        key
    } else {
        path + "."@ + key
    }
}

pub fn join(path: &str, key: &str) -> (joined: String)
    ensures
        joined@ == joined_path(path@, key@),
{
    let mut joined = path.to_owned();
    if is_empty(path) {
        return key.to_owned();
    }
    joined.push_str(".");
    joined.push_str(key);
    joined
}

/// Whether a string holds nothing.
pub fn is_empty(text: &str) -> (empty: bool)
    ensures
        empty == (text@.len() == 0),
{
    proof {
        reveal_strlit("");
    }
    let empty = str_eq(text, "");
    assert(text@.len() == 0 ==> text@ =~= ""@);
    empty
}

pub open spec fn invalid_view(path: Seq<char>, what: Seq<char>) -> RejectionView {
    rejected(RejectionCode::InvalidValue, path, "`"@ + path + "` "@ + what + "."@)
}

pub fn invalid(path: &str, what: &str) -> (rejection: Rejection)
    ensures
        rejection@ == invalid_view(path@, what@),
{
    let mut message = String::from_str("`");
    message.push_str(path);
    message.push_str("` ");
    message.push_str(what);
    message.push_str(".");
    Rejection::new(RejectionCode::InvalidValue, Some(path), message)
}

pub open spec fn missing_view(path: Seq<char>) -> RejectionView {
    rejected(RejectionCode::MissingParameter, path, "`"@ + path + "` is required."@)
}

pub fn missing_parameter(path: &str) -> (rejection: Rejection)
    ensures
        rejection@ == missing_view(path@),
{
    let mut message = String::from_str("`");
    message.push_str(path);
    message.push_str("` is required.");
    Rejection::new(RejectionCode::MissingParameter, Some(path), message)
}

pub open spec fn unsupported_parameter_view(path: Seq<char>) -> RejectionView {
    let message = "`"@ + path + "` is not supported by QuotaMiser (allowlist "@
        + ALLOWLIST_VERSION@ + ")."@;
    rejected(
        RejectionCode::UnsupportedParameter,
        path,
        if path == "stream_options"@ {
            message + " "@ + CODEX_PROVIDER_HINT@
        } else {
            message
        },
    )
}

pub fn unsupported_parameter(path: &str) -> (rejection: Rejection)
    ensures
        rejection@ == unsupported_parameter_view(path@),
{
    let mut message = String::from_str("`");
    message.push_str(path);
    message.push_str("` is not supported by QuotaMiser (allowlist ");
    message.push_str(ALLOWLIST_VERSION);
    message.push_str(").");
    if str_eq(path, "stream_options") {
        message.push_str(" ");
        message.push_str(CODEX_PROVIDER_HINT);
    }
    Rejection::new(RejectionCode::UnsupportedParameter, Some(path), message)
}

/// Whether only Codex's built-in provider sends a field.
pub open spec fn codex_only(key: Seq<char>) -> bool {
    key == "internal_chat_message_metadata_passthrough"@ || key == "encrypted_function_args"@
}

pub open spec fn unsupported_field_view(
    path: Seq<char>,
    what: Seq<char>,
    key: Seq<char>,
) -> RejectionView {
    let message = "`"@ + key + "` is not supported in a "@ + what + " (allowlist "@
        + ALLOWLIST_VERSION@ + ")."@;
    rejected(
        RejectionCode::UnsupportedParameter,
        path,
        if codex_only(key) {
            message + " "@ + CODEX_PROVIDER_HINT@
        } else {
            message
        },
    )
}

pub fn unsupported_field(path: &str, what: &str, key: &str) -> (rejection: Rejection)
    ensures
        rejection@ == unsupported_field_view(path@, what@, key@),
{
    let mut message = String::from_str("`");
    message.push_str(key);
    message.push_str("` is not supported in a ");
    message.push_str(what);
    message.push_str(" (allowlist ");
    message.push_str(ALLOWLIST_VERSION);
    message.push_str(").");
    if str_eq(key, "internal_chat_message_metadata_passthrough") || str_eq(
        key,
        "encrypted_function_args",
    ) {
        message.push_str(" ");
        message.push_str(CODEX_PROVIDER_HINT);
    }
    Rejection::new(RejectionCode::UnsupportedParameter, Some(path), message)
}

/// Whether a tool type is one of the names of hosted web search.
pub open spec fn is_web_search(kind: Seq<char>) -> bool {
    kind == "web_search"@ || kind == "web_search_preview"@ || kind
        == "web_search_preview_2025_03_11"@ || kind == "web_search_2025_08_26"@
}

pub open spec fn hosted_tool_view(path: Seq<char>, kind: Seq<char>) -> RejectionView {
    rejected(
        RejectionCode::HostedTool,
        path,
        if is_web_search(kind) {
            "Hosted web search is not allowed through QuotaMiser: it is billed per call, outside the token grant. In Codex, set `web_search = \"disabled\"` in config.toml."@
        } else if kind == "tool_search"@ {
            "`tool_search` is not allowed through QuotaMiser. Codex adds it when MCP servers or apps expose deferred tools; leave them out of the Codex profile that uses QuotaMiser."@
        } else {
            "Tool type `"@ + kind
                + "` is not allowed through QuotaMiser. Accepted tool types: function, custom, and namespace containing function or custom tools."@
        },
    )
}

pub fn hosted_tool(path: &str, kind: &str) -> (rejection: Rejection)
    ensures
        rejection@ == hosted_tool_view(path@, kind@),
{
    let message = if str_eq(kind, "web_search") || str_eq(kind, "web_search_preview") || str_eq(
        kind,
        "web_search_preview_2025_03_11",
    ) || str_eq(kind, "web_search_2025_08_26") {
        String::from_str(
            "Hosted web search is not allowed through QuotaMiser: it is billed per call, outside the token grant. In Codex, set `web_search = \"disabled\"` in config.toml.",
        )
    } else if str_eq(kind, "tool_search") {
        String::from_str(
            "`tool_search` is not allowed through QuotaMiser. Codex adds it when MCP servers or apps expose deferred tools; leave them out of the Codex profile that uses QuotaMiser.",
        )
    } else {
        let mut text = String::from_str("Tool type `");
        text.push_str(kind);
        text.push_str(
            "` is not allowed through QuotaMiser. Accepted tool types: function, custom, and namespace containing function or custom tools.",
        );
        text
    };
    Rejection::new(RejectionCode::HostedTool, Some(path), message)
}

} // verus!
