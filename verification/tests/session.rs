use notify::domain::ValidationError;
use notify::protocol::{ClientCommand, MessagePayload, ServerEvent};
use notify::session::{
    close_requested, history_outcome, history_undelivered, invalid_payload_event,
    on_inbound_frame, plan_command, publish_outcome, subscription_unacknowledged,
    validation_to_event, CommandPlan, InboundAction, InboundFrame,
};

fn error(code: &str, message: &str) -> ServerEvent {
    ServerEvent::Error {
        code: code.into(),
        message: message.into(),
    }
}

fn payload(id: i64, text: &str) -> MessagePayload {
    MessagePayload {
        id,
        topic: "alerts".into(),
        text: text.into(),
        ts: "2026-05-14T00:00:00+00:00".into(),
    }
}

#[test]
fn server_event_error_carries_code_and_message() {
    assert_eq!(
        ServerEvent::error("queue_overflow", "closing"),
        error("queue_overflow", "closing")
    );
}

#[test]
fn validation_errors_map_to_documented_events() {
    assert_eq!(
        validation_to_event(ValidationError::InvalidTopic),
        error("invalid_topic", "topic must be 1-64 chars using [A-Za-z0-9_.:-]")
    );
    assert_eq!(
        validation_to_event(ValidationError::BadRequest),
        error(
            "bad_request",
            "text payload must be non-empty and at most 2000 characters"
        )
    );
}

#[test]
fn subscribe_plan_acknowledges_topic() {
    let plan = plan_command(
        ClientCommand::Subscribe {
            topic: "alerts".into(),
        },
        50,
        200,
    );
    match plan {
        CommandPlan::Subscribe { topic, ack } => {
            assert_eq!(topic, "alerts");
            assert_eq!(
                ack,
                ServerEvent::Subscribed {
                    topic: "alerts".into()
                }
            );
        }
        _ => panic!("expected a subscription"),
    }
}

#[test]
fn invalid_topic_is_rejected_for_every_command() {
    let commands = vec![
        ClientCommand::Subscribe {
            topic: "not ok".into(),
        },
        ClientCommand::Publish {
            topic: "".into(),
            text: "hello".into(),
        },
        ClientCommand::History {
            topic: "a/b".into(),
            since_id: None,
            limit: None,
        },
    ];
    for command in commands {
        match plan_command(command, 50, 200) {
            CommandPlan::Reject { event } => assert_eq!(
                event,
                error("invalid_topic", "topic must be 1-64 chars using [A-Za-z0-9_.:-]")
            ),
            _ => panic!("expected a rejection"),
        }
    }
}

#[test]
fn publish_plan_checks_text() {
    match plan_command(
        ClientCommand::Publish {
            topic: "alerts".into(),
            text: "   ".into(),
        },
        50,
        200,
    ) {
        CommandPlan::Reject { event } => assert_eq!(
            event,
            error(
                "bad_request",
                "text payload must be non-empty and at most 2000 characters"
            )
        ),
        _ => panic!("expected a rejection"),
    }
    match plan_command(
        ClientCommand::Publish {
            topic: "alerts".into(),
            text: "hello world".into(),
        },
        50,
        200,
    ) {
        CommandPlan::Publish { topic, text } => {
            assert_eq!(topic, "alerts");
            assert_eq!(text, "hello world");
        }
        _ => panic!("expected a publication"),
    }
}

#[test]
fn history_plan_clamps_limit() {
    match plan_command(
        ClientCommand::History {
            topic: "alerts".into(),
            since_id: Some(12),
            limit: Some(999),
        },
        50,
        200,
    ) {
        CommandPlan::History {
            topic,
            since_id,
            limit,
        } => {
            assert_eq!(topic, "alerts");
            assert_eq!(since_id, Some(12));
            assert_eq!(limit, 200);
        }
        _ => panic!("expected a history request"),
    }
    match plan_command(
        ClientCommand::History {
            topic: "alerts".into(),
            since_id: None,
            limit: None,
        },
        50,
        200,
    ) {
        CommandPlan::History {
            since_id, limit, ..
        } => {
            assert_eq!(since_id, None);
            assert_eq!(limit, 50);
        }
        _ => panic!("expected a history request"),
    }
}

#[test]
fn published_message_is_broadcast_as_stored() {
    let event = publish_outcome(Ok(payload(42, "api rollout completed"))).unwrap();
    assert_eq!(
        event,
        ServerEvent::Message {
            id: 42,
            topic: "alerts".into(),
            text: "api rollout completed".into(),
            ts: "2026-05-14T00:00:00+00:00".into(),
        }
    );
    let failure = publish_outcome(Err("disk full".into())).unwrap_err();
    assert_eq!(
        failure,
        error("storage_failure", "failed to persist message: disk full")
    );
}

#[test]
fn history_is_sent_oldest_first() {
    let items = vec![payload(1, "one"), payload(2, "two")];
    let event = history_outcome("alerts".into(), Ok(items.clone())).unwrap();
    assert_eq!(
        event,
        ServerEvent::History {
            topic: "alerts".into(),
            items,
            oldest_first: true,
        }
    );
    let failure = history_outcome("alerts".into(), Err("locked".into())).unwrap_err();
    assert_eq!(
        failure,
        error("storage_failure", "failed to read history: locked")
    );
}

#[test]
fn delivery_failures_are_storage_failures() {
    assert_eq!(
        subscription_unacknowledged(),
        error("storage_failure", "failed to acknowledge subscription")
    );
    assert_eq!(
        history_undelivered(),
        error("storage_failure", "failed to deliver history response")
    );
}

#[test]
fn unreadable_payload_is_a_bad_request() {
    assert_eq!(
        invalid_payload_event("expected value at line 1 column 1"),
        error(
            "bad_request",
            "invalid command payload: expected value at line 1 column 1"
        )
    );
}

#[test]
fn frames_lead_to_actions() {
    match on_inbound_frame(InboundFrame::Text("{}".into())) {
        InboundAction::Handle(text) => assert_eq!(text, "{}"),
        _ => panic!("text frames are handled"),
    }
    assert!(matches!(on_inbound_frame(InboundFrame::Close), InboundAction::Stop));
    assert!(matches!(on_inbound_frame(InboundFrame::Failed), InboundAction::Stop));
    assert!(matches!(on_inbound_frame(InboundFrame::Ping), InboundAction::Ignore));
    assert!(matches!(on_inbound_frame(InboundFrame::Pong), InboundAction::Ignore));
    match on_inbound_frame(InboundFrame::Binary) {
        InboundAction::Reply(event) => assert_eq!(
            event,
            error("bad_request", "only text websocket frames are supported")
        ),
        _ => panic!("binary frames are answered"),
    }
}

#[test]
fn close_signal_ends_writer_only_when_set() {
    assert!(close_requested(true, true));
    assert!(!close_requested(true, false));
    assert!(!close_requested(false, true));
}
