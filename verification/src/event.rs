//! The chat event: the three-field message that clients exchange and that the
//! hub synthesises when a client joins or leaves.

use vstd::prelude::*;

verus! {

/// A chat event as it travels on the wire.
pub struct ChatMessage {
    pub username: String,
    pub content: String,
    pub message_type: String,
}

/// The mathematical value of a chat event.
pub ghost struct EventView {
    pub username: Seq<char>,
    pub content: Seq<char>,
    pub message_type: Seq<char>,
}

impl View for ChatMessage {
    type V = EventView;

    open spec fn view(&self) -> EventView {
        EventView {
            username: self.username@,
            content: self.content@,
            message_type: self.message_type@,
        }
    }
}

/// The three kinds of event that the wire schema admits.
pub open spec fn is_kind(t: Seq<char>) -> bool {
    t == "message"@ || t == "join"@ || t == "leave"@
}

/// The notice that the hub sends when `name` registers.
pub open spec fn join_event(name: Seq<char>) -> EventView {
    EventView { username: name, content: "joined the chat"@, message_type: "join"@ }
}

/// The notice that the hub sends when `name` leaves.
pub open spec fn leave_event(name: Seq<char>) -> EventView {
    EventView { username: name, content: "left the chat"@, message_type: "leave"@ }
}

/// A message that `name` wrote.
pub open spec fn message_event(name: Seq<char>, content: Seq<char>) -> EventView {
    EventView { username: name, content: content, message_type: "message"@ }
}

/// The views of a sequence of events, one for one.
pub open spec fn events_view(events: Seq<ChatMessage>) -> Seq<EventView> {
    events.map_values(|m: ChatMessage| m@)
}

/// Whether `kind` is one of the three event kinds.
pub fn known_kind(kind: &String) -> (r: bool)
    ensures
        r == is_kind(kind@),
{
    let message = "message".to_owned();
    let join = "join".to_owned();
    let leave = "leave".to_owned();
    *kind == message || *kind == join || *kind == leave
}

impl ChatMessage {
    /// Whether the event's kind is one that the wire schema admits.
    pub open spec fn well_formed(&self) -> bool {
        is_kind(self.message_type@)
    }

    /// The join notice for `name`.
    pub fn join(name: &str) -> (r: ChatMessage)
        ensures
            r@ == join_event(name@),
            r.well_formed(),
    {
        ChatMessage {
            username: name.to_owned(),
            content: "joined the chat".to_owned(),
            message_type: "join".to_owned(),
        }
    }

    /// The leave notice for `name`.
    pub fn leave(name: &str) -> (r: ChatMessage)
        ensures
            r@ == leave_event(name@),
            r.well_formed(),
    {
        ChatMessage {
            username: name.to_owned(),
            content: "left the chat".to_owned(),
            message_type: "leave".to_owned(),
        }
    }

    /// A message that `name` wrote.
    pub fn message(name: &str, content: &str) -> (r: ChatMessage)
        ensures
            r@ == message_event(name@, content@),
            r.well_formed(),
    {
        ChatMessage {
            username: name.to_owned(),
            content: content.to_owned(),
            message_type: "message".to_owned(),
        }
    }

    /// Whether this event is a join or leave notice rather than a user's message.
    pub fn is_notice(&self) -> (r: bool)
        ensures
            r == (self.message_type@ == "join"@ || self.message_type@ == "leave"@),
    {
        let join = "join".to_owned();
        let leave = "leave".to_owned();
        self.message_type == join || self.message_type == leave
    }
}

impl Clone for ChatMessage {
    fn clone(&self) -> (r: ChatMessage)
        ensures
            r@ == self@,
    {
        ChatMessage {
            username: self.username.clone(),
            content: self.content.clone(),
            message_type: self.message_type.clone(),
        }
    }
}

} // verus!
