//! The wire types of a tools-only JSON-RPC 2.0 server.

use crate::text::{chars_of, concat2, maybe, trim, trimmed};
use vstd::prelude::*;

verus! {

/// A JSON value of `serde_json`, carried through as it is.
#[verifier::external_type_specification]
#[verifier::external_body]
pub struct ExValue(serde_json::Value);

/// The members of a JSON object whose values are strings, by their keys; none
/// where the value is no object.
pub uninterp spec fn string_members(v: serde_json::Value) -> Map<Seq<char>, Seq<char>>;

/// Calls `serde_json::Value::get` with a key and `serde_json::Value::as_str` on
/// what it finds: the member's text, where the value is an object that has the
/// member and the member is a string.
#[verifier::external_body]
fn string_member(v: &serde_json::Value, key: &str) -> (r: Option<String>)
    ensures
        maybe(r) == (if string_members(*v).dom().contains(key@) {
            Some(string_members(*v)[key@])
        } else {
            None
        }),
{
    v.get(key).and_then(|m| m.as_str()).map(|s| s.to_string())
}

/// The revision this server implements.
pub const PROTOCOL_VERSION: &'static str = "2025-06-18";

pub const JSONRPC_VERSION: &'static str = "2.0";

pub const PARSE_ERROR: i32 = -32700;

pub const INVALID_REQUEST: i32 = -32600;

pub const METHOD_NOT_FOUND: i32 = -32601;

/// A request or notification (`id` absent means notification).
#[derive(Debug)]
pub struct Request {
    pub id: Option<serde_json::Value>,
    pub method: String,
    pub params: Option<serde_json::Value>,
}

impl Request {
    pub fn is_notification(&self) -> (r: bool)
        ensures
            r == (self.id is None),
    {
        self.id.is_none()
    }
}

#[derive(Debug, Clone, PartialEq, Eq)]
pub struct ErrorObject {
    pub code: i32,
    pub message: String,
}

/// A tool as it is advertised.
#[derive(Debug)]
pub struct ToolInfo {
    pub name: String,
    pub description: String,
    pub input_schema: serde_json::Value,
}

/// Parameters of a call.
#[derive(Debug)]
pub struct CallParams {
    pub name: String,
    pub arguments: serde_json::Value,
}

/// One content block in a tool result. The image is what lets an agent actually
/// *see* a frame.
#[derive(Debug, Clone, PartialEq, Eq)]
pub enum Content {
    Text { text: String },
    Image {
        /// Base64, no data-URI prefix.
        data: String,
        mime_type: String,
    },
}

/// What a [`Content`] says.
pub enum ContentModel {
    Text { text: Seq<char> },
    Image { data: Seq<char>, mime_type: Seq<char> },
}

impl View for Content {
    type V = ContentModel;

    open spec fn view(&self) -> ContentModel {
        match *self {
            Content::Text { text } => ContentModel::Text { text: text@ },
            Content::Image { data, mime_type } => ContentModel::Image {
                data: data@,
                mime_type: mime_type@,
            },
        }
    }
}

/// What a list of content blocks says.
pub open spec fn content_views(v: Seq<Content>) -> Seq<ContentModel> {
    v.map_values(|c: Content| c@)
}

/// Result of a call.
///
/// `is_error` is *not* a protocol error: a tool that ran and failed reports it
/// here so the model can read the message and react.
#[derive(Debug, Clone, PartialEq, Eq)]
pub struct CallResult {
    pub content: Vec<Content>,
    pub is_error: Option<bool>,
}

/// What a request that succeeded is answered.
#[derive(Debug)]
pub enum Reply {
    /// The revision agreed on, and who serves it.
    Initialized { protocol_version: String, name: String, version: String },
    Tools { tools: Vec<ToolInfo> },
    Called { result: CallResult },
    /// Nothing: that there is an answer at all is the whole contract.
    Alive,
}

/// A response. An absent id stands for `null`: a malformed frame has none to
/// answer against.
#[derive(Debug)]
pub struct Response {
    pub id: Option<serde_json::Value>,
    pub result: Option<Reply>,
    pub error: Option<ErrorObject>,
}

impl Response {
    pub fn success(id: Option<serde_json::Value>, result: Reply) -> (r: Self)
        ensures
            r.id == id,
            r.result == Some(result),
            r.error is None,
    {
        Response { id, result: Some(result), error: None }
    }

    pub fn error(id: Option<serde_json::Value>, code: i32, message: String) -> (r: Self)
        ensures
            r.id == id,
            r.result is None,
            r.error matches Some(e) && e.code == code && e.message@ == message@,
    {
        Response { id, result: None, error: Some(ErrorObject { code, message }) }
    }

    /// The answer to a frame that is no request, whatever was wrong with it.
    pub fn parse_error(why: &str) -> (r: Self)
        ensures
            r.id is None,
            r.result is None,
            r.error matches Some(e) && e.code == PARSE_ERROR && e.message@ == "parse error: "@
                + why@,
    {
        Response::error(None, PARSE_ERROR, concat2("parse error: ", why))
    }
}

/// The version to report back: the one asked for, or this server's own.
pub fn chosen_version(asked: Option<String>) -> (r: String)
    ensures
        r@ == (match maybe(asked) {
            Some(v) => v,
            None => PROTOCOL_VERSION@,
        }),
{
    match asked {
        Some(v) => v,
        None => PROTOCOL_VERSION.to_owned(),
    }
}

/// The version that a client's parameters ask for.
pub open spec fn asked_version(params: Option<&serde_json::Value>) -> Option<Seq<char>> {
    match params {
        Some(p) => if string_members(*p).dom().contains("protocolVersion"@) {
            Some(string_members(*p)["protocolVersion"@])
        } else {
            None
        },
        None => None,
    }
}

/// Pick the protocol version to report back. Echoing the revision a client
/// sends keeps us compatible with both older and newer hosts.
pub fn negotiate_version(params: Option<&serde_json::Value>) -> (r: String)
    ensures
        r@ == (match asked_version(params) {
            Some(v) => v,
            None => PROTOCOL_VERSION@,
        }),
{
    let asked = match params {
        Some(p) => string_member(p, "protocolVersion"),
        None => None,
    };
    chosen_version(asked)
}

/// Whether a line of input holds nothing: it is skipped, and is no error.
pub fn is_blank_line(line: &str) -> (r: bool)
    ensures
        r == (trimmed(line@).len() == 0),
{
    let chars = chars_of(line);
    trim(chars.as_slice()).as_str().is_empty()
}

} // verus!
