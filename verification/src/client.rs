//! What a chat client decides: which event a typed line becomes, which
//! inbound frames enter its message list, and how an event is shown.

use vstd::prelude::*;
use vstd::string::{StrSliceExecFns, StringExecFns};
use crate::event::{ChatMessage, EventView, events_view, message_event};
use crate::wire::{decode, decoded};

verus! {

/// The event that a typed line becomes: none for an empty line.
pub open spec fn composed(username: Seq<char>, input: Seq<char>) -> Option<EventView> {
    if input.len() == 0 {
        None
    } else {
        Some(message_event(username, input))
    }
}

/// The text shown for an event: join and leave notices are marked with a
/// star, a user's message is shown as it is.
pub open spec fn shown(e: EventView) -> Seq<char> {
    if e.message_type == "join"@ || e.message_type == "leave"@ {
        "* "@ + e.content
    } else {
        e.content
    }
}

/// The character shown in place of a picture: the first of the name, or a
/// question mark for an empty name.
pub open spec fn initial(username: Seq<char>) -> char {
    if username.len() == 0 {
        '?'
    } else {
        username[0]
    }
}

/// The message list after an inbound frame: a frame that decodes is added
/// at the end, any other is ignored.
pub open spec fn accepted(messages: Seq<EventView>, frame: Seq<char>) -> Seq<EventView> {
    match decoded(frame) {
        Some(e) => messages.push(e),
        None => messages,
    }
}

/// The address of the hub's endpoint for a client of this name.
pub open spec fn endpoint_url(name: Seq<char>) -> Seq<char> {
    "ws://127.0.0.1:8080/ws/?username="@ + name
}

/// The name of a client from its answer to the prompt: the answer as it is,
/// or `Anonymous` where the prompt was cancelled.
pub open spec fn named(answer: Option<Seq<char>>) -> Seq<char> {
    match answer {
        Some(name) => name,
        None => "Anonymous"@,
    }
}

/// The address to connect to under this name.
pub fn connect_url(name: &str) -> (r: String)
    ensures
        r@ == endpoint_url(name@),
{
    let mut out = String::from_str("ws://127.0.0.1:8080/ws/?username=");
    out.append(name);
    out
}

/// The name to use after the prompt was answered or cancelled.
pub fn chosen_name(answer: Option<String>) -> (r: String)
    ensures
        r@ == named(crate::wire::text_view(answer)),
{
    match answer {
        Some(name) => name,
        None => String::from_str("Anonymous"),
    }
}

/// Turns a typed line into the event to send.
pub fn compose(username: &str, input: &str) -> (r: Option<ChatMessage>)
    ensures
        crate::wire::event_view(r) == composed(username@, input@),
{
    if input.is_empty() {
        None
    } else {
        Some(ChatMessage::message(username, input))
    }
}

/// The text to show for an event.
pub fn shown_text(event: &ChatMessage) -> (r: String)
    ensures
        r@ == shown(event@),
{
    if event.is_notice() {
        let mut out = String::from_str("* ");
        out.append(event.content.as_str());
        out
    } else {
        event.content.clone()
    }
}

/// The character to show in place of a picture.
pub fn avatar(username: &str) -> (r: char)
    ensures
        r == initial(username@),
{
    if username.is_empty() {
        '?'
    } else {
        username.get_char(0)
    }
}

/// Takes an inbound frame into the message list.
pub fn accept(messages: &mut Vec<ChatMessage>, frame: &str)
    ensures
        events_view(final(messages)@) == accepted(events_view(old(messages)@), frame@),
{
    match decode(frame) {
        Some(event) => {
            messages.push(event);
            proof {
                assert(events_view(old(messages)@.push(event)) =~= events_view(
                    old(messages)@,
                ).push(event@));
            }
        },
        None => {},
    }
}

} // verus!
