use rusagent::json::JsonValue;
use rusagent::message::{Message, MessageFilter, MessagePriority, MessageType};

fn obj(pairs: Vec<(&str, JsonValue)>) -> JsonValue {
    JsonValue::Obj(pairs.into_iter().map(|(k, v)| (k.to_string(), v)).collect())
}

#[test]
fn test_message_creation() {
    let msg = Message::new(
        "agent1".to_string(),
        Some("agent2".to_string()),
        MessageType::TaskAssignment,
        obj(vec![("task", JsonValue::Str("test".to_string()))]),
    );

    assert_eq!(msg.sender_id, "agent1");
    assert_eq!(msg.receiver_id, Some("agent2".to_string()));
    assert!(!msg.is_broadcast());
}

#[test]
fn test_broadcast_message() {
    let msg = Message::broadcast(
        "master".to_string(),
        MessageType::StatusUpdate,
        obj(vec![("status", JsonValue::Str("ready".to_string()))]),
    );

    assert!(msg.is_broadcast());
    assert_eq!(msg.receiver_id, None);
}

#[test]
fn test_message_filter() {
    let msg = Message::new(
        "agent1".to_string(),
        None,
        MessageType::TaskAssignment,
        obj(vec![]),
    )
    .with_priority(MessagePriority::High);

    let filter = MessageFilter::new()
        .from_sender("agent1".to_string())
        .with_min_priority(MessagePriority::Normal);

    assert!(filter.matches(&msg));
}

#[test]
fn test_message_priority() {
    let msg1 = Message::new(
        "sender".to_string(),
        Some("receiver".to_string()),
        MessageType::TaskAssignment,
        obj(vec![]),
    )
    .with_priority(MessagePriority::High);

    let msg2 = Message::new(
        "sender".to_string(),
        Some("receiver".to_string()),
        MessageType::StatusUpdate,
        obj(vec![]),
    )
    .with_priority(MessagePriority::Low);

    assert!(msg1.priority > msg2.priority);
}

#[test]
fn test_expiry_and_payload_lookup() {
    let msg = Message::new(
        "a".to_string(),
        Some("b".to_string()),
        MessageType::Heartbeat,
        obj(vec![("n", JsonValue::Int(7))]),
    )
    .with_expiry(100);

    assert!(!msg.is_expired(100));
    assert!(msg.is_expired(101));
    match msg.payload.get("n") {
        Some(JsonValue::Int(7)) => {}
        other => panic!("unexpected payload entry: {:?}", other),
    }
    assert!(msg.payload.get("missing").is_none());
}
