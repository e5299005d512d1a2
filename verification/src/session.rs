//! The decisions of a client session: what each command leads to, how
//! each outcome of the storage is answered, and what each incoming frame
//! leads to. The caller performs the storage, queue and socket work.

use vstd::prelude::*;
use vstd::string::StringExecFns;

use crate::domain::{
    clamp_history_limit, effective_limit, is_valid_text, is_valid_topic,
    lemma_effective_limit_bounds, validate_text, validate_topic, ValidationError,
};
use crate::hub::{fanned_out, Delivery, TopicHub};
use crate::protocol::{
    message_views, ClientCommand, CommandView, EventView, MessagePayload, ServerEvent,
};

verus! {

/// What a session does with one command.
pub enum CommandPlan {
    /// Subscribe the connection to `topic`, then send `ack`.
    Subscribe { topic: String, ack: ServerEvent },
    /// Store the message, then broadcast what was stored.
    Publish { topic: String, text: String },
    /// Read at most `limit` messages of `topic` (after `since_id`, when given).
    History { topic: String, since_id: Option<i64>, limit: u32 },
    /// Answer with `event` and do nothing else.
    Reject { event: ServerEvent },
}

/// The mathematical value of a `CommandPlan`.
pub enum PlanView {
    Subscribe { topic: Seq<char>, ack: EventView },
    Publish { topic: Seq<char>, text: Seq<char> },
    History { topic: Seq<char>, since_id: Option<i64>, limit: u32 },
    Reject { event: EventView },
}

impl View for CommandPlan {
    type V = PlanView;

    open spec fn view(&self) -> PlanView {
        match self {
            CommandPlan::Subscribe { topic, ack } => PlanView::Subscribe { topic: topic@, ack: ack@ },
            CommandPlan::Publish { topic, text } => PlanView::Publish { topic: topic@, text: text@ },
            CommandPlan::History { topic, since_id, limit } => PlanView::History {
                topic: topic@,
                since_id: *since_id,
                limit: *limit,
            },
            CommandPlan::Reject { event } => PlanView::Reject { event: event@ },
        }
    }
}

/// The error event that answers a refused value.
pub open spec fn validation_event(err: ValidationError) -> EventView {
    match err {
        ValidationError::InvalidTopic => EventView::Error {
            code: "invalid_topic"@,
            message: "topic must be 1-64 chars using [A-Za-z0-9_.:-]"@,
        },
        ValidationError::BadRequest => EventView::Error {
            code: "bad_request"@,
            message: "text payload must be non-empty and at most 2000 characters"@,
        },
    }
}

/// What a session plans for a command, given the default and the largest
/// history page size.
pub open spec fn planned(command: CommandView, default_limit: u32, max_limit: u32) -> PlanView {
    match command {
        CommandView::Subscribe { topic } => if is_valid_topic(topic) {
            PlanView::Subscribe { topic, ack: EventView::Subscribed { topic } }
        } else {
            PlanView::Reject { event: validation_event(ValidationError::InvalidTopic) }
        },
        CommandView::Publish { topic, text } => if !is_valid_topic(topic) {
            PlanView::Reject { event: validation_event(ValidationError::InvalidTopic) }
        } else if !is_valid_text(text) {
            PlanView::Reject { event: validation_event(ValidationError::BadRequest) }
        } else {
            PlanView::Publish { topic, text }
        },
        CommandView::History { topic, since_id, limit } => if is_valid_topic(topic) {
            PlanView::History {
                topic,
                since_id,
                limit: effective_limit(limit, default_limit, max_limit),
            }
        } else {
            PlanView::Reject { event: validation_event(ValidationError::InvalidTopic) }
        },
    }
}

/// A refused command is answered with an error event whose code is
/// `invalid_topic` or `bad_request`; an accepted history request asks for
/// at least one message and no more than the cap (or exactly one, when
/// the cap is 0).
pub proof fn lemma_plan_bounds(command: CommandView, default_limit: u32, max_limit: u32)
    ensures
        planned(command, default_limit, max_limit) is Reject ==> {
            let event = planned(command, default_limit, max_limit)->Reject_event;
            &&& event is Error
            &&& event->Error_code == "invalid_topic"@ || event->Error_code == "bad_request"@
        },
        planned(command, default_limit, max_limit) is History ==> {
            let limit = planned(command, default_limit, max_limit)->History_limit;
            &&& 1 <= limit
            &&& limit <= max_limit || limit == 1
        },
{
    match command {
        CommandView::History { topic, since_id, limit } => {
            lemma_effective_limit_bounds(limit, default_limit, max_limit);
        },
        _ => {},
    }
}

/// A command is refused only for a disallowed topic or, when publishing, a
/// disallowed text; otherwise its plan carries the command's own values: a
/// subscription keeps its topic and is acknowledged with that topic, a
/// publication keeps its topic and text, and a history request keeps its
/// topic and its cursor `since_id` unchanged.
pub proof fn lemma_plan_keeps_command(command: CommandView, default_limit: u32, max_limit: u32)
    ensures
        command matches CommandView::Subscribe { topic } ==> (is_valid_topic(topic) ==> planned(
            command,
            default_limit,
            max_limit,
        ) == PlanView::Subscribe { topic, ack: EventView::Subscribed { topic } }),
        command matches CommandView::Publish { topic, text } ==> (is_valid_topic(topic)
            && is_valid_text(text) ==> planned(command, default_limit, max_limit)
            == PlanView::Publish { topic, text }),
        command matches CommandView::History { topic, since_id, limit } ==> (is_valid_topic(topic)
            ==> planned(command, default_limit, max_limit) is History
            && planned(command, default_limit, max_limit)->History_topic == topic
            && planned(command, default_limit, max_limit)->History_since_id == since_id
            && planned(command, default_limit, max_limit)->History_limit == effective_limit(
            limit,
            default_limit,
            max_limit,
        )),
        planned(command, default_limit, max_limit) is History ==> command is History
            && planned(command, default_limit, max_limit)->History_topic == command->History_topic
            && planned(command, default_limit, max_limit)->History_since_id
            == command->History_since_id,
        planned(command, default_limit, max_limit) is Reject ==> match command {
            CommandView::Subscribe { topic } => !is_valid_topic(topic),
            CommandView::Publish { topic, text } => !is_valid_topic(topic) || !is_valid_text(text),
            CommandView::History { topic, .. } => !is_valid_topic(topic),
        },
{
}

/// A disallowed topic is answered with code `invalid_topic`, a disallowed
/// text with code `bad_request`, each with the message the protocol
/// documents.
pub proof fn lemma_validation_event_codes()
    ensures
        validation_event(ValidationError::InvalidTopic) == (EventView::Error {
            code: "invalid_topic"@,
            message: "topic must be 1-64 chars using [A-Za-z0-9_.:-]"@,
        }),
        validation_event(ValidationError::BadRequest) == (EventView::Error {
            code: "bad_request"@,
            message: "text payload must be non-empty and at most 2000 characters"@,
        }),
{
}

/// The error event that answers a refused value.
pub fn validation_to_event(err: ValidationError) -> (e: ServerEvent)
    ensures
        e@ == validation_event(err),
{
    match err {
        ValidationError::InvalidTopic => ServerEvent::error(
            "invalid_topic",
            "topic must be 1-64 chars using [A-Za-z0-9_.:-]",
        ),
        ValidationError::BadRequest => ServerEvent::error(
            "bad_request",
            "text payload must be non-empty and at most 2000 characters",
        ),
    }
}

/// Decides what to do with a command: a subscription, a publication or a
/// history request whose values are valid goes ahead, with the history
/// page size clamped; anything else is refused with the matching error.
pub fn plan_command(command: ClientCommand, default_limit: u32, max_limit: u32) -> (plan:
    CommandPlan)
    ensures
        plan@ == planned(command@, default_limit, max_limit),
{
    match command {
        ClientCommand::Subscribe { topic } => match validate_topic(topic.as_str()) {
            Ok(()) => {
                let ack = ServerEvent::Subscribed { topic: topic.clone() };
                CommandPlan::Subscribe { topic, ack }
            },
            Err(err) => CommandPlan::Reject { event: validation_to_event(err) },
        },
        ClientCommand::Publish { topic, text } => {
            if let Err(err) = validate_topic(topic.as_str()) {
                return CommandPlan::Reject { event: validation_to_event(err) };
            }
            if let Err(err) = validate_text(text.as_str()) {
                return CommandPlan::Reject { event: validation_to_event(err) };
            }
            CommandPlan::Publish { topic, text }
        },
        ClientCommand::History { topic, since_id, limit } => match validate_topic(
            topic.as_str(),
        ) {
            Ok(()) => {
                let limit = clamp_history_limit(limit, default_limit, max_limit);
                CommandPlan::History { topic, since_id, limit }
            },
            Err(err) => CommandPlan::Reject { event: validation_to_event(err) },
        },
    }
}

/// `prefix` followed by `detail`.
fn joined(prefix: &str, detail: &str) -> (s: String)
    ensures
        s@ == prefix@ + detail@,
{
    let mut s = prefix.to_owned();
    s.append(detail);
    s
}

/// The answer to a command payload that could not be read: a
/// `bad_request` error that carries the reason.
pub fn invalid_payload_event(detail: &str) -> (e: ServerEvent)
    ensures
        e@ == (EventView::Error {
            code: "bad_request"@,
            message: "invalid command payload: "@ + detail@,
        }),
{
    let message = joined("invalid command payload: ", detail);
    ServerEvent::error("bad_request", message.as_str())
}

/// What follows the storing of a published message: the stored message
/// is broadcast as a `message` event; a storage failure is answered with a
/// `storage_failure` error that carries the reason.
pub fn publish_outcome(stored: Result<MessagePayload, String>) -> (r: Result<ServerEvent, ServerEvent>)
    ensures
        match stored {
            Ok(p) => r matches Ok(e) && e@ == (EventView::Message {
                id: p.id,
                topic: p.topic@,
                text: p.text@,
                ts: p.ts@,
            }),
            Err(detail) => r matches Err(e) && e@ == (EventView::Error {
                code: "storage_failure"@,
                message: "failed to persist message: "@ + detail@,
            }),
        },
{
    match stored {
        Ok(p) => Ok(ServerEvent::Message { id: p.id, topic: p.topic, text: p.text, ts: p.ts }),
        Err(detail) => {
            let message = joined("failed to persist message: ", detail.as_str());
            Err(ServerEvent::error("storage_failure", message.as_str()))
        },
    }
}

/// Publishes what the storage returned: a stored message is broadcast on
/// `topic` as a `message` event carrying the stored identifier, topic,
/// text and timestamp, so every follower that gets an event gets exactly
/// that one; a storage failure broadcasts nothing and is answered with a
/// `storage_failure` error that carries the reason.
pub fn deliver_publication(
    hub: &mut TopicHub,
    topic: &str,
    stored: Result<MessagePayload, String>,
) -> (r: Result<Vec<Delivery>, ServerEvent>)
    requires
        old(hub).wf(),
    ensures
        final(hub).wf(),
        match stored {
            Ok(p) => r matches Ok(report) && fanned_out(
                old(hub)@,
                old(hub).journal(),
                final(hub)@,
                final(hub).journal(),
                topic@,
                EventView::Message { id: p.id, topic: p.topic@, text: p.text@, ts: p.ts@ },
                report@,
            ),
            Err(detail) => r matches Err(e) && e@ == (EventView::Error {
                code: "storage_failure"@,
                message: "failed to persist message: "@ + detail@,
            }) && final(hub)@ == old(hub)@ && final(hub).journal() == old(hub).journal(),
        },
{
    match publish_outcome(stored) {
        Ok(event) => Ok(hub.broadcast(topic, event)),
        Err(e) => Err(e),
    }
}

/// What follows the reading of a topic's history: the messages are sent
/// as a `history` event, oldest first; a storage failure is answered with
/// a `storage_failure` error that carries the reason.
pub fn history_outcome(topic: String, fetched: Result<Vec<MessagePayload>, String>) -> (r: Result<
    ServerEvent,
    ServerEvent,
>)
    ensures
        match fetched {
            Ok(items) => r matches Ok(e) && e@ == (EventView::History {
                topic: topic@,
                items: message_views(items@),
                oldest_first: true,
            }),
            Err(detail) => r matches Err(e) && e@ == (EventView::Error {
                code: "storage_failure"@,
                message: "failed to read history: "@ + detail@,
            }),
        },
{
    match fetched {
        Ok(items) => Ok(ServerEvent::History { topic, items, oldest_first: true }),
        Err(detail) => {
            let message = joined("failed to read history: ", detail.as_str());
            Err(ServerEvent::error("storage_failure", message.as_str()))
        },
    }
}

/// The answer when a subscription acknowledgement could not be queued.
pub fn subscription_unacknowledged() -> (e: ServerEvent)
    ensures
        e@ == (EventView::Error {
            code: "storage_failure"@,
            message: "failed to acknowledge subscription"@,
        }),
{
    ServerEvent::error("storage_failure", "failed to acknowledge subscription")
}

/// The answer when a history response could not be queued.
pub fn history_undelivered() -> (e: ServerEvent)
    ensures
        e@ == (EventView::Error {
            code: "storage_failure"@,
            message: "failed to deliver history response"@,
        }),
{
    ServerEvent::error("storage_failure", "failed to deliver history response")
}

/// A frame received from a client's socket.
pub enum InboundFrame {
    Text(String),
    Binary,
    Ping,
    Pong,
    Close,
    /// The socket reported an error.
    Failed,
}

/// What a session does with a received frame.
pub enum InboundAction {
    /// Read the text as a command.
    Handle(String),
    /// Nothing.
    Ignore,
    /// Answer with an event.
    Reply(ServerEvent),
    /// Stop reading and close the session.
    Stop,
}

/// Text frames are read as commands; a close frame or a socket error ends
/// the session; pings and pongs are ignored; any other frame is answered
/// with a `bad_request` error.
pub fn on_inbound_frame(frame: InboundFrame) -> (action: InboundAction)
    ensures
        match frame {
            InboundFrame::Text(t) => action matches InboundAction::Handle(u) && u@ == t@,
            InboundFrame::Close | InboundFrame::Failed => action is Stop,
            InboundFrame::Ping | InboundFrame::Pong => action is Ignore,
            InboundFrame::Binary => action matches InboundAction::Reply(e) && e@ == (
            EventView::Error {
                code: "bad_request"@,
                message: "only text websocket frames are supported"@,
            }),
        },
{
    match frame {
        InboundFrame::Text(t) => InboundAction::Handle(t),
        InboundFrame::Close => InboundAction::Stop,
        InboundFrame::Failed => InboundAction::Stop,
        InboundFrame::Ping => InboundAction::Ignore,
        InboundFrame::Pong => InboundAction::Ignore,
        InboundFrame::Binary => InboundAction::Reply(
            ServerEvent::error("bad_request", "only text websocket frames are supported"),
        ),
    }
}

/// Whether a change of the close signal ends the writer: only a change
/// that was received and sets the flag does.
pub fn close_requested(change_received: bool, flag: bool) -> (stop: bool)
    ensures
        stop == (change_received && flag),
{
    change_received && flag
}

} // verus!
