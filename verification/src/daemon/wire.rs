//! Daemon SSE messages → UI events.
//!
//! Frames come in two shapes: wrapped (`{"seq":N,"request_id":..,"payload":{..}}`,
//! ordinary events) and bare (`{"type":..}`, preamble and errors). A wrapped
//! frame of an earlier turn must not leak into the current one.

use vstd::prelude::*;
use crate::daemon::tool_render::{ToolArgs, json_string_member, opt_text, string_member};
use crate::daemon::turn::Payload;
use crate::text::str_eq;

verus! {

/// Neutral event sent to the front end; it exposes no server vocabulary.
pub enum UiEvent {
    Welcome { session_id: String },
    Chunk { content: String },
    Think { content: String },
    Diagnostic { content: String },
    /// Result of a tool the client ran for the daemon: `detail` summarises
    /// the arguments (url, command, path), `preview` the head of the output.
    Tool { tool: String, ok: bool, detail: String, preview: String },
    /// A tool the server runs has started (web search, fetch); `detail` is
    /// the url or query.
    ToolStart { tool: String, detail: String },
    /// Preview of a server-side tool's result.
    ToolResult { ok: bool, preview: String },
    /// A permission request (denied automatically, shown to the user).
    Permission { tool: String, reason: String },
    /// Asks the user to approve a shell command before it runs.
    ConfirmExec { call_id: String, command: String },
    Done,
    Error { message: String },
}

/// Whether a frame belongs to the current turn (`expected` request id): a
/// wrapped event passes only when its request id matches; a bare global
/// frame (no request id: errors, stream control) always passes.
pub fn for_turn(request_id: &Option<String>, expected: &str) -> (r: bool)
    ensures
        r == match request_id {
            Some(id) => id@ == expected@,
            None => true,
        },
{
    match request_id {
        Some(id) => str_eq(id.as_str(), expected),
        None => true,
    }
}

/// The parts of an event frame as `serde_json` reads its text: `None` when
/// the text is no JSON; else the member `seq` as a `u64`, the member
/// `request_id` as a string, and the member `payload` written back as
/// JSON text (each `None` when missing or of another type).
pub uninterp spec fn json_frame_parts(text: Seq<char>) -> Option<
    (Option<u64>, Option<Seq<char>>, Option<Seq<char>>),
>;

/// The boolean member `key` of the JSON value written in `text`, as
/// `serde_json` reads it; `None` when `text` is no JSON, or the member is
/// missing or not a boolean.
pub uninterp spec fn json_bool_member(text: Seq<char>, key: Seq<char>) -> Option<bool>;

/// The members of the object that is member `key` of the JSON value
/// written in `text`, as `serde_json` iterates them: each key, with its
/// value when that is a string. Empty when there is no such object.
pub uninterp spec fn json_object_members(text: Seq<char>, key: Seq<char>) -> Seq<
    (Seq<char>, Option<Seq<char>>),
>;

pub open spec fn parts_view(r: Option<(Option<u64>, Option<String>, Option<String>)>) -> Option<
    (Option<u64>, Option<Seq<char>>, Option<Seq<char>>),
> {
    match r {
        Some((s, rid, p)) => Some((s, opt_text(rid), opt_text(p))),
        None => None,
    }
}

pub open spec fn members_view(ms: Seq<(String, Option<String>)>) -> Seq<
    (Seq<char>, Option<Seq<char>>),
> {
    ms.map_values(|m: (String, Option<String>)| (m.0@, opt_text(m.1)))
}

/// Parses `text` with `serde_json::from_str` into a `serde_json::Value`
/// and takes `seq` (`Value::as_u64`), `request_id` (`Value::as_str`) and
/// `payload` (written back with `Value::to_string`).
#[verifier::external_body]
fn frame_parts(text: &str) -> (r: Option<(Option<u64>, Option<String>, Option<String>)>)
    ensures
        parts_view(r) == json_frame_parts(text@),
{
    match serde_json::from_str::<serde_json::Value>(text) {
        Ok(v) => Some((
            v.get("seq").and_then(serde_json::Value::as_u64),
            v.get("request_id").and_then(|x| x.as_str()).map(|x| x.to_string()),
            v.get("payload").map(|p| p.to_string()),
        )),
        Err(_) => None,
    }
}

/// Parses `text` with `serde_json::from_str` and picks the boolean member
/// `key` (`Value::get`, `Value::as_bool`).
#[verifier::external_body]
fn bool_member(text: &str, key: &str) -> (r: Option<bool>)
    ensures
        r == json_bool_member(text@, key@),
{
    serde_json::from_str::<serde_json::Value>(text).ok().and_then(
        |v| v.get(key).and_then(serde_json::Value::as_bool),
    )
}

/// Parses `text` with `serde_json::from_str`, takes the object member `key`
/// (`Value::get`, `Value::as_object`) and lists its members in the map's
/// order, each with its string value (`Value::as_str`).
#[verifier::external_body]
fn object_members(text: &str, key: &str) -> (r: Vec<(String, Option<String>)>)
    ensures
        members_view(r@) == json_object_members(text@, key@),
{
    let v = serde_json::from_str::<serde_json::Value>(text).ok();
    match v.as_ref().and_then(|v| v.get(key)).and_then(|a| a.as_object()) {
        Some(m) => m.iter().map(|(k, x)| (k.clone(), x.as_str().map(|s| s.to_string()))).collect(),
        None => Vec::new(),
    }
}

/// The string member `key` of the JSON in `text`, empty when missing or
/// not a string.
pub open spec fn str_field(text: Seq<char>, key: Seq<char>) -> Seq<char> {
    match json_string_member(text, key) {
        Some(s) => s,
        None => Seq::empty(),
    }
}

/// `p` is the payload that the JSON text `text` describes.
pub open spec fn payload_of_text(p: Payload, text: Seq<char>) -> bool {
    &&& p.kind@ == str_field(text, "type"@)
    &&& p.session_id@ == str_field(text, "session_id"@)
    &&& p.content@ == str_field(text, "content"@)
    &&& p.tool@ == str_field(text, "tool"@)
    &&& p.output@ == str_field(text, "output"@)
    &&& p.call_id@ == str_field(text, "call_id"@)
    &&& p.reason@ == str_field(text, "reason"@)
    &&& p.message@ == str_field(text, "message"@)
    &&& p.success == json_bool_member(text, "success"@)
    &&& members_view(p.args.members@) == json_object_members(text, "args"@)
}

/// The string member `key` of the JSON in `text`, or an empty string.
fn field_text(text: &str, key: &str) -> (r: String)
    ensures
        r@ == str_field(text@, key@),
{
    match string_member(text, key) {
        Some(v) => v,
        None => String::new(),
    }
}

/// The payload an event's JSON text describes: its type, its string
/// fields (empty when absent), its `success` flag and its tool arguments.
pub fn payload_from(text: &str) -> (r: Payload)
    ensures
        payload_of_text(r, text@),
{
    Payload {
        kind: field_text(text, "type"),
        session_id: field_text(text, "session_id"),
        content: field_text(text, "content"),
        tool: field_text(text, "tool"),
        output: field_text(text, "output"),
        call_id: field_text(text, "call_id"),
        reason: field_text(text, "reason"),
        message: field_text(text, "message"),
        success: bool_member(text, "success"),
        args: ToolArgs { members: object_members(text, "args") },
    }
}

/// A parsed event frame: a wrapped one carries its sequence number, its
/// request id and its payload; a bare one is its own payload.
pub struct WireFrame {
    pub seq: Option<u64>,
    pub request_id: Option<String>,
    pub payload: Payload,
    /// The payload's JSON text (what the local tools read their arguments
    /// from).
    pub payload_text: String,
}

/// Splits one frame's text: a JSON value with a `payload` member is a
/// wrapped frame (its `seq`, `request_id` and `payload`); any other JSON
/// value is a bare frame, its own payload; text that is no JSON (comments,
/// keep-alives) gives `None`.
pub fn parse_frame(data: &str) -> (r: Option<WireFrame>)
    ensures
        (r is Some) == (json_frame_parts(data@) is Some),
        r matches Some(f) ==> match json_frame_parts(data@)->Some_0 {
            (seq, rid, Some(pt)) => {
                &&& f.seq == seq
                &&& opt_text(f.request_id) == rid
                &&& f.payload_text@ == pt
                &&& payload_of_text(f.payload, pt)
            },
            (_, _, None) => {
                &&& f.seq is None
                &&& f.request_id is None
                &&& f.payload_text@ == data@
                &&& payload_of_text(f.payload, data@)
            },
        },
{
    match frame_parts(data) {
        None => None,
        Some((seq, rid, Some(pt))) => {
            let payload = payload_from(pt.as_str());
            Some(WireFrame { seq, request_id: rid, payload, payload_text: pt })
        },
        Some((_, _, None)) => {
            let payload = payload_from(data);
            Some(WireFrame {
                seq: None,
                request_id: None,
                payload,
                payload_text: crate::text::to_string(data),
            })
        },
    }
}

} // verus!
