use notify::channel::DeliveryOutcome;
use notify::hub::TopicHub;
use notify::protocol::{MessagePayload, ServerEvent};
use notify::session::deliver_publication;
use tokio::sync::{mpsc, watch};

fn message(id: i64, text: &str) -> ServerEvent {
    ServerEvent::Message {
        id,
        topic: "alerts".into(),
        text: text.into(),
        ts: format!("t{id}"),
    }
}

#[test]
fn queue_overflow() {
    let runtime = tokio::runtime::Builder::new_current_thread()
        .build()
        .unwrap();
    let mut hub = TopicHub::new();
    let (tx, mut rx) = mpsc::channel(1);
    let (close_tx, mut close_rx) = watch::channel(false);
    let connection_id = hub.register(tx, close_tx);
    hub.subscribe(connection_id, "alerts");
    assert_eq!(hub.topic_member_count("alerts"), 1);

    hub.broadcast(
        "alerts",
        ServerEvent::Message {
            id: 1,
            topic: "alerts".into(),
            text: "first".into(),
            ts: "t1".into(),
        },
    );
    hub.broadcast(
        "alerts",
        ServerEvent::Message {
            id: 2,
            topic: "alerts".into(),
            text: "second".into(),
            ts: "t2".into(),
        },
    );

    let first = runtime
        .block_on(rx.recv())
        .expect("first queued event");
    assert!(matches!(first, ServerEvent::Message { id: 1, .. }));
    runtime
        .block_on(close_rx.changed())
        .expect("overflow should trigger close signal");
    assert!(
        *close_rx.borrow(),
        "overflow should mark the connection for closure"
    );
    assert_eq!(
        hub.topic_member_count("alerts"),
        0,
        "overflow should unregister slow subscriber"
    );
}

#[test]
fn register_hands_out_increasing_ids() {
    let mut hub = TopicHub::new();
    assert!(hub.can_register());
    let (tx1, _rx1) = mpsc::channel(4);
    let (c1, _w1) = watch::channel(false);
    let (tx2, _rx2) = mpsc::channel(4);
    let (c2, _w2) = watch::channel(false);
    assert_eq!(hub.register(tx1, c1), 1);
    assert_eq!(hub.register(tx2, c2), 2);
}

#[test]
fn subscribe_twice_counts_once() {
    let mut hub = TopicHub::default();
    let (tx, _rx) = mpsc::channel(4);
    let (c, _w) = watch::channel(false);
    let id = hub.register(tx, c);
    hub.subscribe(id, "alerts");
    hub.subscribe(id, "alerts");
    assert_eq!(hub.topic_member_count("alerts"), 1);
    assert_eq!(hub.topic_member_count("deploys"), 0);
}

#[test]
fn subscribe_unknown_connection_does_nothing() {
    let mut hub = TopicHub::new();
    hub.subscribe(42, "alerts");
    assert_eq!(hub.topic_member_count("alerts"), 0);
}

#[test]
fn unregister_leaves_every_topic() {
    let mut hub = TopicHub::new();
    let (tx1, _rx1) = mpsc::channel(4);
    let (c1, _w1) = watch::channel(false);
    let (tx2, _rx2) = mpsc::channel(4);
    let (c2, _w2) = watch::channel(false);
    let a = hub.register(tx1, c1);
    let b = hub.register(tx2, c2);
    hub.subscribe(a, "alerts");
    hub.subscribe(a, "deploys");
    hub.subscribe(b, "alerts");
    assert_eq!(hub.topic_member_count("alerts"), 2);
    hub.unregister(a);
    assert_eq!(hub.topic_member_count("alerts"), 1);
    assert_eq!(hub.topic_member_count("deploys"), 0);
    hub.unregister(a);
    assert_eq!(hub.topic_member_count("alerts"), 1);
    hub.unregister(b);
    assert_eq!(hub.topic_member_count("alerts"), 0);
}

#[test]
fn broadcast_reaches_only_followers() {
    let mut hub = TopicHub::new();
    let (tx1, mut rx1) = mpsc::channel(4);
    let (c1, _w1) = watch::channel(false);
    let (tx2, mut rx2) = mpsc::channel(4);
    let (c2, _w2) = watch::channel(false);
    let a = hub.register(tx1, c1);
    let b = hub.register(tx2, c2);
    hub.subscribe(a, "alerts");
    hub.subscribe(b, "deploys");
    let report = hub.broadcast("alerts", message(7, "hello world"));
    assert_eq!(report.len(), 1);
    assert_eq!(report[0].connection_id, a);
    assert_eq!(report[0].outcome, DeliveryOutcome::Delivered);
    assert_eq!(rx1.try_recv().unwrap(), message(7, "hello world"));
    assert!(rx2.try_recv().is_err());
    assert_eq!(hub.topic_member_count("alerts"), 1);
}

#[test]
fn broadcast_to_empty_topic_reports_nothing() {
    let mut hub = TopicHub::new();
    let report = hub.broadcast("alerts", message(1, "x"));
    assert!(report.is_empty());
}

#[test]
fn broadcast_drops_closed_receivers() {
    let mut hub = TopicHub::new();
    let (tx1, rx1) = mpsc::channel(4);
    let (c1, w1) = watch::channel(false);
    let (tx2, mut rx2) = mpsc::channel(4);
    let (c2, _w2) = watch::channel(false);
    let a = hub.register(tx1, c1);
    let b = hub.register(tx2, c2);
    hub.subscribe(a, "alerts");
    hub.subscribe(b, "alerts");
    drop(rx1);
    let report = hub.broadcast("alerts", message(3, "x"));
    assert_eq!(report.len(), 2);
    for delivery in &report {
        if delivery.connection_id == a {
            assert_eq!(delivery.outcome, DeliveryOutcome::Closed);
        } else {
            assert_eq!(delivery.connection_id, b);
            assert_eq!(delivery.outcome, DeliveryOutcome::Delivered);
        }
    }
    assert!(*w1.borrow());
    assert!(rx2.try_recv().is_ok());
    assert_eq!(hub.topic_member_count("alerts"), 1);
}

#[test]
fn overflow_sends_no_error_when_queue_stays_full() {
    let mut hub = TopicHub::new();
    let (tx, mut rx) = mpsc::channel(1);
    let (c, w) = watch::channel(false);
    let id = hub.register(tx, c);
    hub.subscribe(id, "alerts");
    hub.broadcast("alerts", message(1, "first"));
    let report = hub.broadcast("alerts", message(2, "second"));
    assert_eq!(report.len(), 1);
    assert_eq!(report[0].outcome, DeliveryOutcome::QueueFull);
    assert!(*w.borrow());
    assert_eq!(rx.try_recv().unwrap(), message(1, "first"));
    assert!(rx.try_recv().is_err());
}

#[test]
fn register_then_unregister_leaves_others() {
    let mut hub = TopicHub::new();
    let (tx1, _rx1) = mpsc::channel(4);
    let (c1, _w1) = watch::channel(false);
    let a = hub.register(tx1, c1);
    hub.subscribe(a, "alerts");
    let (tx2, _rx2) = mpsc::channel(4);
    let (c2, _w2) = watch::channel(false);
    let b = hub.register(tx2, c2);
    hub.unregister(b);
    assert_eq!(hub.topic_member_count("alerts"), 1);
    hub.subscribe(b, "alerts");
    assert_eq!(hub.topic_member_count("alerts"), 1);
}

#[test]
fn publication_reaches_followers_as_stored() {
    let mut hub = TopicHub::new();
    let (tx1, mut rx1) = mpsc::channel(4);
    let (c1, w1) = watch::channel(false);
    let (tx2, mut rx2) = mpsc::channel(4);
    let (c2, _w2) = watch::channel(false);
    let follower = hub.register(tx1, c1);
    let publisher = hub.register(tx2, c2);
    hub.subscribe(follower, "alerts");
    let stored = MessagePayload::new(9, "alerts", "hello world", "2026-05-14T06:45:00+00:00".to_string());
    let report = deliver_publication(&mut hub, "alerts", Ok(stored)).unwrap();
    assert_eq!(report.len(), 1);
    assert_eq!(report[0].connection_id, follower);
    assert_eq!(
        rx1.try_recv().unwrap(),
        ServerEvent::Message {
            id: 9,
            topic: "alerts".into(),
            text: "hello world".into(),
            ts: "2026-05-14T06:45:00+00:00".into(),
        }
    );
    assert!(rx2.try_recv().is_err(), "no acknowledgement for the publisher");
    assert!(!*w1.borrow());
    let failure = deliver_publication(&mut hub, "alerts", Err("disk full".into())).unwrap_err();
    assert_eq!(
        failure,
        ServerEvent::error("storage_failure", "failed to persist message: disk full")
    );
    assert!(rx1.try_recv().is_err());
    let _ = publisher;
}

#[test]
fn full_follower_is_closed_and_roomy_one_kept() {
    let mut hub = TopicHub::new();
    let (tx1, mut rx1) = mpsc::channel(1);
    let (c1, w1) = watch::channel(false);
    let (tx2, mut rx2) = mpsc::channel(4);
    let (c2, w2) = watch::channel(false);
    let slow = hub.register(tx1, c1);
    let fast = hub.register(tx2, c2);
    hub.subscribe(slow, "alerts");
    hub.subscribe(fast, "alerts");
    hub.subscribe(fast, "deploys");
    hub.broadcast("deploys", message(0, "warm-up"));
    hub.broadcast("alerts", message(1, "first"));
    let report = hub.broadcast("alerts", message(2, "second"));
    for delivery in &report {
        if delivery.connection_id == slow {
            assert_eq!(delivery.outcome, DeliveryOutcome::QueueFull);
        } else {
            assert_eq!(delivery.outcome, DeliveryOutcome::Delivered);
        }
    }
    assert!(*w1.borrow());
    assert!(!*w2.borrow());
    assert_eq!(rx1.try_recv().unwrap(), message(1, "first"));
    assert_eq!(rx2.try_recv().unwrap(), message(0, "warm-up"));
    assert_eq!(rx2.try_recv().unwrap(), message(1, "first"));
    assert_eq!(rx2.try_recv().unwrap(), message(2, "second"));
    assert_eq!(hub.topic_member_count("alerts"), 1);
    assert_eq!(hub.topic_member_count("deploys"), 1);
}

#[test]
fn event_duplicate_is_equal() {
    let event = ServerEvent::History {
        topic: "alerts".into(),
        items: vec![MessagePayload::new(1, "alerts", "one", "t1".to_string())],
        oldest_first: true,
    };
    assert_eq!(event.duplicate(), event);
    assert_eq!(message(3, "x").duplicate(), message(3, "x"));
}
