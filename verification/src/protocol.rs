//! The values exchanged with clients: commands in, events out.

use vstd::prelude::*;

verus! {

/// A command sent by a client.
#[derive(Debug, Clone, PartialEq, Eq)]
pub enum ClientCommand {
    Subscribe { topic: String },
    Publish { topic: String, text: String },
    History { topic: String, since_id: Option<i64>, limit: Option<u32> },
}

/// A stored message as clients see it.
#[derive(Debug, Clone, PartialEq, Eq)]
pub struct MessagePayload {
    pub id: i64,
    pub topic: String,
    pub text: String,
    pub ts: String,
}

/// An event sent to a client.
#[derive(Debug, Clone, PartialEq, Eq)]
pub enum ServerEvent {
    Subscribed { topic: String },
    Message { id: i64, topic: String, text: String, ts: String },
    History { topic: String, items: Vec<MessagePayload>, oldest_first: bool },
    Error { code: String, message: String },
}

/// The mathematical value of a `ClientCommand`.
pub enum CommandView {
    Subscribe { topic: Seq<char> },
    Publish { topic: Seq<char>, text: Seq<char> },
    History { topic: Seq<char>, since_id: Option<i64>, limit: Option<u32> },
}

/// The mathematical value of a `MessagePayload`.
pub struct MessageView {
    pub id: i64,
    pub topic: Seq<char>,
    pub text: Seq<char>,
    pub ts: Seq<char>,
}

/// The mathematical value of a `ServerEvent`.
pub enum EventView {
    Subscribed { topic: Seq<char> },
    Message { id: i64, topic: Seq<char>, text: Seq<char>, ts: Seq<char> },
    History { topic: Seq<char>, items: Seq<MessageView>, oldest_first: bool },
    Error { code: Seq<char>, message: Seq<char> },
}

impl View for ClientCommand {
    type V = CommandView;

    open spec fn view(&self) -> CommandView {
        match self {
            ClientCommand::Subscribe { topic } => CommandView::Subscribe { topic: topic@ },
            ClientCommand::Publish { topic, text } => CommandView::Publish {
                topic: topic@,
                text: text@,
            },
            ClientCommand::History { topic, since_id, limit } => CommandView::History {
                topic: topic@,
                since_id: *since_id,
                limit: *limit,
            },
        }
    }
}

impl View for MessagePayload {
    type V = MessageView;

    open spec fn view(&self) -> MessageView {
        MessageView { id: self.id, topic: self.topic@, text: self.text@, ts: self.ts@ }
    }
}

/// The views of a sequence of payloads.
pub open spec fn message_views(items: Seq<MessagePayload>) -> Seq<MessageView> {
    items.map_values(|m: MessagePayload| m@)
}

impl View for ServerEvent {
    type V = EventView;

    open spec fn view(&self) -> EventView {
        match self {
            ServerEvent::Subscribed { topic } => EventView::Subscribed { topic: topic@ },
            ServerEvent::Message { id, topic, text, ts } => EventView::Message {
                id: *id,
                topic: topic@,
                text: text@,
                ts: ts@,
            },
            ServerEvent::History { topic, items, oldest_first } => EventView::History {
                topic: topic@,
                items: message_views(items@),
                oldest_first: *oldest_first,
            },
            ServerEvent::Error { code, message } => EventView::Error {
                code: code@,
                message: message@,
            },
        }
    }
}

impl MessagePayload {
    /// The payload of a stored row: its identifier, topic, text and
    /// timestamp.
    pub fn new(id: i64, topic: &str, text: &str, ts: String) -> (p: Self)
        ensures
            p@ == (MessageView { id, topic: topic@, text: text@, ts: ts@ }),
    {
        MessagePayload { id, topic: topic.to_owned(), text: text.to_owned(), ts }
    }

    /// A copy of the payload.
    pub fn duplicate(&self) -> (p: Self)
        ensures
            p@ == self@,
    {
        MessagePayload {
            id: self.id,
            topic: self.topic.clone(),
            text: self.text.clone(),
            ts: self.ts.clone(),
        }
    }
}

/// A copy of each payload, in order.
fn duplicate_items(items: &Vec<MessagePayload>) -> (copies: Vec<MessagePayload>)
    ensures
        message_views(copies@) == message_views(items@),
{
    let mut copies: Vec<MessagePayload> = Vec::new();
    let mut i: usize = 0;
    while i < items.len()
        invariant
            i <= items@.len(),
            copies@.len() == i,
            forall|j: int| 0 <= j < i ==> #[trigger] copies@[j]@ == items@[j]@,
        decreases items@.len() - i,
    {
        copies.push(items[i].duplicate());
        i = i + 1;
    }
    assert(message_views(copies@) =~= message_views(items@));
    copies
}

impl ServerEvent {
    /// A copy of the event.
    pub fn duplicate(&self) -> (e: Self)
        ensures
            e@ == self@,
    {
        match self {
            ServerEvent::Subscribed { topic } => ServerEvent::Subscribed { topic: topic.clone() },
            ServerEvent::Message { id, topic, text, ts } => ServerEvent::Message {
                id: *id,
                topic: topic.clone(),
                text: text.clone(),
                ts: ts.clone(),
            },
            ServerEvent::History { topic, items, oldest_first } => ServerEvent::History {
                topic: topic.clone(),
                items: duplicate_items(items),
                oldest_first: *oldest_first,
            },
            ServerEvent::Error { code, message } => ServerEvent::Error {
                code: code.clone(),
                message: message.clone(),
            },
        }
    }

    /// An error event with the given code and message.
    pub fn error(code: &str, message: &str) -> (e: Self)
        ensures
            e@ == (EventView::Error { code: code@, message: message@ }),
    {
        ServerEvent::Error { code: code.to_owned(), message: message.to_owned() }
    }
}

} // verus!
