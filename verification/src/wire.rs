//! The wire format, the same in both directions: a JSON object with the
//! string members `username`, `content` and `message_type`. An inbound frame
//! is accepted when it is such an object and its `message_type` is one of the
//! three event kinds.

use vstd::prelude::*;
use vstd::string::StringExecFns;
use crate::event::{ChatMessage, EventView, is_kind, known_kind};

verus! {

/// The string stored under `key` in the JSON object that `text` spells, if
/// `text` is JSON, is an object, has that key and holds a string there.
pub uninterp spec fn json_text_member(text: Seq<char>, key: Seq<char>) -> Option<Seq<char>>;

/// The view of an optional string.
pub open spec fn text_view(t: Option<String>) -> Option<Seq<char>> {
    match t {
        Some(s) => Some(s@),
        None => None,
    }
}

/// The event that three looked-up members make up: all three must be present
/// and the kind must be known.
pub open spec fn assembled(
    username: Option<Seq<char>>,
    content: Option<Seq<char>>,
    message_type: Option<Seq<char>>,
) -> Option<EventView> {
    match (username, content, message_type) {
        (Some(u), Some(c), Some(t)) => if is_kind(t) {
            Some(EventView { username: u, content: c, message_type: t })
        } else {
            None
        },
        _ => None,
    }
}

/// The event that a frame decodes to, if it decodes.
pub open spec fn decoded(payload: Seq<char>) -> Option<EventView> {
    assembled(
        json_text_member(payload, "username"@),
        json_text_member(payload, "content"@),
        json_text_member(payload, "message_type"@),
    )
}

/// The view of an optional event.
pub open spec fn event_view(e: Option<ChatMessage>) -> Option<EventView> {
    match e {
        Some(m) => Some(m@),
        None => None,
    }
}

/// Parses `text` with `serde_json::from_str` into a `serde_json::Value` and
/// looks `key` up with `Value::get`. The result is the string found there; it
/// is `None` when the text is not JSON, is not an object, lacks the key or
/// holds something other than a string under it. Where the object spells a
/// key more than once, the value keeps the last one, and that one is looked
/// up. The contract only names the result: it depends on the two arguments
/// alone.
#[verifier::external_body]
fn text_member(text: &str, key: &str) -> (r: Option<String>)
    ensures
        text_view(r) == json_text_member(text@, key@),
{
    match serde_json::from_str::<serde_json::Value>(text) {
        Ok(value) => match value.get(key) {
            Some(serde_json::Value::String(s)) => Some(s.clone()),
            _ => None,
        },
        Err(_) => None,
    }
}

/// Builds the event from the three members looked up in a frame.
pub fn assemble(
    username: Option<String>,
    content: Option<String>,
    message_type: Option<String>,
) -> (r: Option<ChatMessage>)
    ensures
        event_view(r) == assembled(
            text_view(username),
            text_view(content),
            text_view(message_type),
        ),
        r matches Some(m) ==> m.well_formed(),
{
    match (username, content, message_type) {
        (Some(u), Some(c), Some(t)) => {
            if known_kind(&t) {
                Some(ChatMessage { username: u, content: c, message_type: t })
            } else {
                None
            }
        },
        _ => None,
    }
}

/// Decodes an inbound frame. Members other than the three are ignored; of a
/// member that the frame spells more than once, the last one counts.
pub fn decode(payload: &str) -> (r: Option<ChatMessage>)
    ensures
        event_view(r) == decoded(payload@),
        r matches Some(m) ==> m.well_formed(),
{
    let username = text_member(payload, "username");
    let content = text_member(payload, "content");
    let message_type = text_member(payload, "message_type");
    assemble(username, content, message_type)
}

/// The JSON string literal that spells `text`, quotes and escapes included.
pub uninterp spec fn json_string_literal(text: Seq<char>) -> Seq<char>;

/// The frame made of three string literals: the object with the three
/// members in schema order, without white space.
pub open spec fn framed(username: Seq<char>, content: Seq<char>, message_type: Seq<char>) -> Seq<
    char,
> {
    "{\"username\":"@ + username + ",\"content\":"@ + content + ",\"message_type\":"@
        + message_type + "}"@
}

/// The frame that an event encodes to.
pub open spec fn encoded(e: EventView) -> Seq<char> {
    framed(
        json_string_literal(e.username),
        json_string_literal(e.content),
        json_string_literal(e.message_type),
    )
}

/// Serialises a string with `serde_json::to_string`, which writes it as a
/// JSON string literal. The contract names the literal, which depends on the
/// argument alone, and says that there is one: the serialiser writes a string
/// into a byte vector in memory, and every error it can return comes from the
/// writer, which for a vector has none.
#[verifier::external_body]
fn string_literal(text: &str) -> (r: Option<String>)
    ensures
        r is Some,
        text_view(r) == Some(json_string_literal(text@)),
{
    match serde_json::to_string(text) {
        Ok(literal) => Some(literal),
        Err(_) => None,
    }
}

/// Puts three string literals together into a frame.
pub fn frame(username: &str, content: &str, message_type: &str) -> (r: String)
    ensures
        r@ == framed(username@, content@, message_type@),
{
    let mut out = String::from_str("{\"username\":");
    out.append(username);
    out.append(",\"content\":");
    out.append(content);
    out.append(",\"message_type\":");
    out.append(message_type);
    out.append("}");
    out
}

/// Encodes an event as an outbound frame. Every event has one.
pub fn encode(event: &ChatMessage) -> (r: String)
    ensures
        r@ == encoded(event@),
{
    let username = string_literal(event.username.as_str()).unwrap();
    let content = string_literal(event.content.as_str()).unwrap();
    let message_type = string_literal(event.message_type.as_str()).unwrap();
    frame(username.as_str(), content.as_str(), message_type.as_str())
}

} // verus!
