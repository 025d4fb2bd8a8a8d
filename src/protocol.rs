//! The requests that sessions and feeds address to the broker, and what the
//! broker sends back out.
use vstd::prelude::*;

use crate::message::{Message, MessageView};

verus! {

/// A session asks to be removed from the registry.
pub struct Disconnect {
    pub id: usize,
}

/// A frame of text for one listener, usually serialized JSON.
pub struct Reply(pub String);

/// The body of a frame to a listener: a tag telling what `message` holds.
pub struct ReplyInner {
    pub tag: String,
    pub message: String,
}

/// A chat message submitted to the broker.
pub struct Content {
    pub chat_message: Message,
}

/// A request for the most recent chat messages.
pub struct RecentMessages;

/// A request for the paid chat messages.
pub struct PaidMessages;

/// The viewer count of one platform.
pub struct ViewCount {
    pub platform: String,
    pub viewers: usize,
}

/// What a broadcast carries: a finished chat message, or the whole table of
/// viewer counts.
pub enum Payload {
    ChatMessage(Message),
    Viewers(Vec<(String, usize)>),
}

/// A payload and the sessions it is for.
pub struct Broadcast {
    pub recipients: Vec<usize>,
    pub payload: Payload,
}

pub open spec fn viewer_entry_view(e: (String, usize)) -> (Seq<char>, usize) {
    (e.0@, e.1)
}

pub open spec fn chat_tag() -> Seq<char> {
    "chat_message"@
}

pub open spec fn viewers_tag() -> Seq<char> {
    "viewers"@
}

impl Payload {
    /// The chat message carried, if any.
    pub open spec fn chat_view(&self) -> Option<MessageView> {
        match self {
            Payload::ChatMessage(m) => Some(m@),
            Payload::Viewers(_) => None,
        }
    }

    /// The viewer table carried, if any.
    pub open spec fn viewers_view(&self) -> Option<Seq<(Seq<char>, usize)>> {
        match self {
            Payload::ChatMessage(_) => None,
            Payload::Viewers(v) => Some(v@.map_values(|e: (String, usize)| viewer_entry_view(e))),
        }
    }

    /// The tag that tells listeners which kind of payload a frame holds.
    pub fn tag(&self) -> (r: &'static str)
        ensures
            self.chat_view() is Some ==> r@ == chat_tag(),
            self.viewers_view() is Some ==> r@ == viewers_tag(),
    {
        match self {
            Payload::ChatMessage(_) => "chat_message",
            Payload::Viewers(_) => "viewers",
        }
    }
}

impl ReplyInner {
    /// The frame body for a payload serialized as `message`.
    pub fn for_payload(payload: &Payload, message: String) -> (r: ReplyInner)
        ensures
            payload.chat_view() is Some ==> r.tag@ == chat_tag(),
            payload.viewers_view() is Some ==> r.tag@ == viewers_tag(),
            r.message@ == message@,
    {
        ReplyInner { tag: String::from_str(payload.tag()), message }
    }
}

} // verus!
