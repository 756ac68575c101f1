//! Where requests go: base URLs, and the paths below them.
//!
//! A credential is only ever sent over https, or to a loopback address. A
//! response id comes from upstream output, but it still becomes a URL path
//! segment and must not be able to change the path.
use vstd::prelude::*;
use vstd::string::*;

use crate::text::{
    chars_of, push_quoted, quoted_text, slashes_are_taken_off_the_end, str_eq, str_view,
    strip_slashes, without_slashes,
};

verus! {

#[derive(Debug)]
pub struct UpstreamConfig {
    /// Including the version prefix, e.g. `https://api.openai.com/v1`.
    pub base_url: String,
    pub api_key: String,
    /// Sent as `OpenAI-Project` when set. Pinned by configuration; a client
    /// cannot choose it.
    pub project: Option<String>,
    pub connect_timeout_seconds: u64,
    /// Idle time allowed between reads, including between stream chunks.
    pub read_timeout_seconds: u64,
}

/// Why a base URL is not used.
#[derive(Debug, PartialEq, Eq)]
pub enum BaseUrlError {
    Invalid(String),
    /// It must use https unless it is loopback.
    Insecure(String),
}

pub enum BaseUrlErrorView {
    Invalid(Seq<char>),
    Insecure(Seq<char>),
}

pub open spec fn base_view(result: Result<String, BaseUrlError>) -> Result<
    Seq<char>,
    BaseUrlErrorView,
> {
    match result {
        Ok(base) => Ok(base@),
        Err(BaseUrlError::Invalid(base)) => Err(BaseUrlErrorView::Invalid(base@)),
        Err(BaseUrlError::Insecure(base)) => Err(BaseUrlErrorView::Insecure(base@)),
    }
}

/// The scheme and the host that `reqwest::Url::parse` reads from a URL; `None`
/// where it refuses the text.
pub uninterp spec fn url_parts(text: Seq<char>) -> Option<(Seq<char>, Option<Seq<char>>)>;

pub open spec fn parts_view(parts: Option<(String, Option<String>)>) -> Option<
    (Seq<char>, Option<Seq<char>>),
> {
    match parts {
        Some((scheme, Some(host))) => Some((scheme@, Some(host@))),
        Some((scheme, None)) => Some((scheme@, None)),
        None => None,
    }
}

/// Trusted: `reqwest::Url::parse` reads a URL, and `scheme` and `host_str`
/// give its parts. They depend on the text alone.
#[verifier::external_body]
fn parse_url(text: &str) -> (parts: Option<(String, Option<String>)>)
    ensures
        parts_view(parts) == url_parts(text@),
{
    reqwest::Url::parse(text).ok().map(|url| {
        (url.scheme().to_string(), url.host_str().map(str::to_string))
    })
}

/// Whether a host is this machine.
pub open spec fn is_loopback(host: Option<Seq<char>>) -> bool {
    host == Some("127.0.0.1"@) || host == Some("localhost"@) || host == Some("[::1]"@)
}

/// Whether a credential may be sent to a URL with this scheme and host.
pub open spec fn may_carry_credentials(scheme: Seq<char>, host: Option<Seq<char>>) -> bool {
    scheme == "https"@ || (scheme == "http"@ && is_loopback(host))
}

/// Whether a credential may be sent to a URL with this scheme and host.
pub fn carries_credentials(scheme: &str, host: Option<&str>) -> (yes: bool)
    ensures
        yes == may_carry_credentials(scheme@, str_view(host)),
{
    let loopback = match host {
        Some(name) => str_eq(name, "127.0.0.1") || str_eq(name, "localhost") || str_eq(
            name,
            "[::1]",
        ),
        None => false,
    };
    str_eq(scheme, "https") || (str_eq(scheme, "http") && loopback)
}

/// The base URL that a configured one is used as.
pub open spec fn checked_base(text: Seq<char>) -> Result<Seq<char>, BaseUrlErrorView> {
    let base = without_slashes(text);
    match url_parts(base) {
        None => Err(BaseUrlErrorView::Invalid(base)),
        Some((scheme, host)) => if may_carry_credentials(scheme, host) {
            Ok(base)
        } else {
            Err(BaseUrlErrorView::Insecure(base))
        },
    }
}

/// Checks a configured base URL, and takes the slashes off its end.
pub fn check_base_url(text: &str) -> (result: Result<String, BaseUrlError>)
    ensures
        base_view(result) == checked_base(text@),
{
    let base = strip_slashes(text);
    match parse_url(base.as_str()) {
        None => Err(BaseUrlError::Invalid(base)),
        Some((scheme, host)) => {
            let host_text = match &host {
                Some(name) => Some(name.as_str()),
                None => None,
            };
            if carries_credentials(scheme.as_str(), host_text) {
                Ok(base)
            } else {
                Err(BaseUrlError::Insecure(base))
            }
        },
    }
}

// ---------------------------------------------------------------------------
// Errors.

#[derive(Debug, PartialEq, Eq)]
pub enum UpstreamError {
    InvalidBaseUrl(String),
    InsecureBaseUrl(String),
    InvalidResponseId(String),
    Build(String),
    Transport(String),
}

/// What went wrong, in words.
pub open spec fn upstream_text(error: UpstreamError) -> Seq<char> {
    match error {
        UpstreamError::InvalidBaseUrl(url) => "the upstream base URL is invalid: "@ + url@,
        UpstreamError::InsecureBaseUrl(url) =>
            "the upstream base URL must use https unless it is loopback: "@ + url@,
        UpstreamError::InvalidResponseId(id) => "not a valid response id: "@ + quoted_text(id@),
        UpstreamError::Build(detail) => "could not build the upstream client: "@ + detail@,
        UpstreamError::Transport(detail) => "upstream transport failed: "@ + detail@,
    }
}

impl UpstreamError {
    pub fn message(&self) -> (text: String)
        ensures
            text@ == upstream_text(*self),
    {
        match self {
            UpstreamError::InvalidBaseUrl(url) => with_detail(
                "the upstream base URL is invalid: ",
                url,
            ),
            UpstreamError::InsecureBaseUrl(url) => with_detail(
                "the upstream base URL must use https unless it is loopback: ",
                url,
            ),
            UpstreamError::InvalidResponseId(id) => {
                let mut text = String::from_str("not a valid response id: ");
                push_quoted(&mut text, id.as_str());
                text
            },
            UpstreamError::Build(detail) => with_detail(
                "could not build the upstream client: ",
                detail,
            ),
            UpstreamError::Transport(detail) => with_detail("upstream transport failed: ", detail),
        }
    }
}

/// A sentence with its detail.
pub fn with_detail(sentence: &str, detail: &String) -> (text: String)
    ensures
        text@ == sentence@ + detail@,
{
    let mut text = sentence.to_owned();
    text.push_str(detail.as_str());
    text
}

impl UpstreamConfig {
    /// The base URL requests go to.
    pub fn base(&self) -> (result: Result<String, UpstreamError>)
        ensures
            match result {
                Ok(base) => checked_base(self.base_url@) == Ok::<Seq<char>, BaseUrlErrorView>(
                    base@,
                ),
                Err(UpstreamError::InvalidBaseUrl(base)) => checked_base(self.base_url@) == Err::<
                    Seq<char>,
                    BaseUrlErrorView,
                >(BaseUrlErrorView::Invalid(base@)),
                Err(UpstreamError::InsecureBaseUrl(base)) => checked_base(self.base_url@) == Err::<
                    Seq<char>,
                    BaseUrlErrorView,
                >(BaseUrlErrorView::Insecure(base@)),
                Err(_) => false,
            },
    {
        match check_base_url(self.base_url.as_str()) {
            Ok(base) => Ok(base),
            Err(BaseUrlError::Invalid(base)) => Err(UpstreamError::InvalidBaseUrl(base)),
            Err(BaseUrlError::Insecure(base)) => Err(UpstreamError::InsecureBaseUrl(base)),
        }
    }
}

// ---------------------------------------------------------------------------
// Paths.

/// Whether a character may stand in a response id.
pub open spec fn id_char(c: char) -> bool {
    let n = c as u32;
    48 <= n <= 57 || 65 <= n <= 90 || 97 <= n <= 122 || n == 95 || n == 45
}

/// Whether a text can be a path segment and nothing more: letters, digits,
/// underscores and hyphens, and at most 128 of them.
pub open spec fn valid_id(id: Seq<char>) -> bool {
    0 < id.len() <= 128 && forall|i: int| 0 <= i < id.len() ==> id_char(#[trigger] id[i])
}

/// The id as a path segment, where it can be one.
pub fn checked_id(response_id: &str) -> (result: Result<&str, UpstreamError>)
    ensures
        match result {
            Ok(id) => valid_id(response_id@) && id@ == response_id@,
            Err(error) => !valid_id(response_id@) && (error matches
                UpstreamError::InvalidResponseId(text) && text@ == response_id@),
        },
{
    let chars = chars_of(response_id);
    let mut valid = chars.len() > 0 && chars.len() <= 128;
    let mut i: usize = 0;
    while valid && i < chars.len()
        invariant
            i <= chars@.len(),
            chars@ == response_id@,
            valid ==> 0 < chars@.len() <= 128 && forall|k: int|
                0 <= k < i ==> id_char(#[trigger] chars@[k]),
            !valid ==> !valid_id(chars@),
        decreases chars.len() - i,
    {
        let n: u32 = chars[i] as u32;
        if !((48 <= n && n <= 57) || (65 <= n && n <= 90) || (97 <= n && n <= 122) || n == 95 || n
            == 45) {
            assert(!id_char(chars@[i as int]));
            valid = false;
        }
        i = i + 1;
    }
    if valid {
        Ok(response_id)
    } else {
        Err(UpstreamError::InvalidResponseId(response_id.to_owned()))
    }
}

/// The path of a response.
pub open spec fn response_path(id: Seq<char>) -> Seq<char> {
    "/responses/"@ + id
}

/// The path that cancels a response.
pub open spec fn cancel_path_of(id: Seq<char>) -> Seq<char> {
    "/responses/"@ + id + "/cancel"@
}

/// The path a response is retrieved from.
pub fn retrieve_path(response_id: &str) -> (result: Result<String, UpstreamError>)
    ensures
        match result {
            Ok(path) => valid_id(response_id@) && path@ == response_path(response_id@),
            Err(error) => !valid_id(response_id@) && (error matches
                UpstreamError::InvalidResponseId(text) && text@ == response_id@),
        },
{
    match checked_id(response_id) {
        Ok(id) => {
            let mut path = String::from_str("/responses/");
            path.push_str(id);
            Ok(path)
        },
        Err(error) => Err(error),
    }
}

/// The path that cancels a response.
pub fn cancel_path(response_id: &str) -> (result: Result<String, UpstreamError>)
    ensures
        match result {
            Ok(path) => valid_id(response_id@) && path@ == cancel_path_of(response_id@),
            Err(error) => !valid_id(response_id@) && (error matches
                UpstreamError::InvalidResponseId(text) && text@ == response_id@),
        },
{
    match checked_id(response_id) {
        Ok(id) => {
            let mut path = String::from_str("/responses/");
            path.push_str(id);
            path.push_str("/cancel");
            Ok(path)
        },
        Err(error) => Err(error),
    }
}

/// Law: a response id cannot change the path it stands in: it holds no
/// separator, no dot and no escape.
pub proof fn an_id_stays_one_segment(id: Seq<char>)
    requires
        valid_id(id),
    ensures
        forall|i: int|
            0 <= i < id.len() ==> (#[trigger] id[i]) != '/' && id[i] != '.' && id[i] != '%' && id[i]
                != '?' && id[i] != '#' && id[i] != ' ',
{
    assert forall|i: int| 0 <= i < id.len() implies (#[trigger] id[i]) != '/' && id[i] != '.'
        && id[i] != '%' && id[i] != '?' && id[i] != '#' && id[i] != ' ' by {
        assert(id_char(id[i]));
    }
}

/// Law: a credential goes nowhere but over https, or over http to this machine.
pub proof fn a_credential_stays_protected(scheme: Seq<char>, host: Option<Seq<char>>)
    ensures
        scheme == "https"@ ==> may_carry_credentials(scheme, host),
        may_carry_credentials(scheme, host) ==> scheme == "https"@ || (scheme == "http"@ && (host
            == Some("localhost"@) || host == Some("127.0.0.1"@) || host == Some("[::1]"@))),
        scheme == "http"@ && (host == Some("localhost"@) || host == Some("127.0.0.1"@) || host
            == Some("[::1]"@)) ==> may_carry_credentials(scheme, host),
{
}

/// Law: a base URL is used without the slashes at its end, where it is a URL to
/// which a credential may be sent; one that is not a URL and one that is not
/// protected are told apart.
pub proof fn a_base_is_used_where_it_is_protected(text: Seq<char>, base: Seq<char>)
    requires
        base.is_prefix_of(text),
        base.len() == 0 || base.last() != '/',
        forall|i: int| base.len() <= i < text.len() ==> #[trigger] text[i] == '/',
    ensures
        match url_parts(base) {
            Some((scheme, host)) => if may_carry_credentials(scheme, host) {
                checked_base(text) matches Ok(used) && used == base
            } else {
                checked_base(text) matches Err(BaseUrlErrorView::Insecure(refused)) && refused
                    == base
            },
            None => checked_base(text) matches Err(BaseUrlErrorView::Invalid(refused)) && refused
                == base,
        },
{
    slashes_are_taken_off_the_end(text);
    let used = without_slashes(text);
    if used.len() < base.len() {
        assert(text[base.len() - 1] == '/');
        assert(base[base.len() - 1] == text[base.len() - 1]);
    } else if base.len() < used.len() {
        assert(text[used.len() - 1] == '/');
        assert(used[used.len() - 1] == text[used.len() - 1]);
    }
    assert(used =~= base);
}

/// Law: an id may be any text of one to 128 ASCII letters, digits, underscores
/// and hyphens, and no other; its response is retrieved and cancelled below
/// `/responses/`.
pub proof fn an_id_is_a_short_plain_text(id: Seq<char>)
    ensures
        valid_id(id) <==> 1 <= id.len() <= 128 && forall|i: int|
            0 <= i < id.len() ==> {
                ||| 'a' as u32 <= #[trigger] id[i] as u32 <= 'z' as u32
                ||| 'A' as u32 <= id[i] as u32 <= 'Z' as u32
                ||| '0' as u32 <= id[i] as u32 <= '9' as u32
                ||| id[i] as u32 == '_' as u32
                ||| id[i] as u32 == '-' as u32
            },
        response_path(id) == "/responses/"@ + id,
        cancel_path_of(id) == response_path(id) + "/cancel"@,
{
    if valid_id(id) {
        assert forall|i: int| 0 <= i < id.len() implies {
            ||| 'a' as u32 <= #[trigger] id[i] as u32 <= 'z' as u32
            ||| 'A' as u32 <= id[i] as u32 <= 'Z' as u32
            ||| '0' as u32 <= id[i] as u32 <= '9' as u32
            ||| id[i] as u32 == '_' as u32
            ||| id[i] as u32 == '-' as u32
        } by {
            assert(id_char(id[i]));
        }
    }
}

} // verus!
