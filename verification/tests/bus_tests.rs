use rusagent::bus::{MessageBus, MessageBusConfig};
use rusagent::errors::{AgentError, DeliveryError};
use rusagent::json::JsonValue;
use rusagent::message::{Message, MessageType};

fn obj(pairs: Vec<(&str, JsonValue)>) -> JsonValue {
    JsonValue::Obj(pairs.into_iter().map(|(k, v)| (k.to_string(), v)).collect())
}

fn expect_delivery_error(r: Result<(), AgentError>, want: DeliveryError) {
    match r {
        Err(AgentError::MessageDeliveryError(kind)) => assert_eq!(kind, want),
        other => panic!("expected delivery error {:?}, got {:?}", want, other),
    }
}

#[test]
fn test_message_bus_registration() {
    let mut bus = MessageBus::new(MessageBusConfig::default());

    bus.register_agent("agent1".to_string()).unwrap();

    let agents = bus.get_registered_agents();
    assert_eq!(agents.len(), 1);
    assert!(agents.contains(&"agent1".to_string()));
}

#[test]
fn test_p2p_messaging() {
    let mut bus = MessageBus::new(MessageBusConfig::default());
    bus.register_agent("agent1".to_string()).unwrap();
    bus.register_agent("agent2".to_string()).unwrap();

    let msg = Message::new(
        "agent1".to_string(),
        Some("agent2".to_string()),
        MessageType::TaskAssignment,
        obj(vec![("task", JsonValue::Str("t".to_string()))]),
    );
    bus.send(msg, 10).unwrap();

    let received = bus.recv("agent2").unwrap();
    assert_eq!(received.sender_id, "agent1");
    assert_eq!(received.receiver_id, Some("agent2".to_string()));
}

#[test]
fn test_broadcast_messaging() {
    let mut bus = MessageBus::new(MessageBusConfig::default());
    bus.register_agent("agent1".to_string()).unwrap();
    bus.register_agent("agent2".to_string()).unwrap();

    let msg = Message::broadcast(
        "agent1".to_string(),
        MessageType::StatusUpdate,
        obj(vec![("status", JsonValue::Str("ready".to_string()))]),
    );
    bus.send(msg, 10).unwrap();

    // the other agent sees the broadcast; the sender never sees its own
    let received2 = bus.recv("agent2").unwrap();
    assert_eq!(received2.sender_id, "agent1");
    assert!(received2.is_broadcast());
    assert!(bus.recv("agent1").is_none());
}

#[test]
fn test_send_expired_message() {
    let mut bus = MessageBus::new(MessageBusConfig::default());
    bus.register_agent("agent1".to_string()).unwrap();

    let msg = Message::new(
        "agent2".to_string(),
        Some("agent1".to_string()),
        MessageType::TaskAssignment,
        obj(vec![]),
    )
    .with_expiry(5);
    expect_delivery_error(bus.send(msg, 6), DeliveryError::Expired);

    // nothing was recorded: history stays empty, only the expired counter moves
    assert_eq!(bus.get_history(None).len(), 0);
    let stats = bus.get_stats();
    assert_eq!(stats.expired_messages, 1);
    assert_eq!(stats.total_messages, 0);
}

#[test]
fn test_send_unknown_receiver() {
    let mut bus = MessageBus::new(MessageBusConfig::default());
    bus.register_agent("agent1".to_string()).unwrap();

    let msg = Message::new(
        "agent1".to_string(),
        Some("ghost".to_string()),
        MessageType::TaskAssignment,
        obj(vec![]),
    );
    expect_delivery_error(bus.send(msg, 1), DeliveryError::UnknownReceiver);
    assert_eq!(bus.get_stats().failed_deliveries, 1);
}

#[test]
fn test_backpressure_on_full_inbox() {
    let config = MessageBusConfig {
        broadcast_capacity: 10,
        p2p_capacity: 2,
        history_size: 10,
        enable_persistence: false,
    };
    let mut bus = MessageBus::new(config);
    bus.register_agent("rx".to_string()).unwrap();

    for _ in 0..2 {
        let m = Message::new(
            "tx".to_string(),
            Some("rx".to_string()),
            MessageType::TaskAssignment,
            obj(vec![]),
        );
        bus.send(m, 1).unwrap();
    }
    let overflow = Message::new(
        "tx".to_string(),
        Some("rx".to_string()),
        MessageType::TaskAssignment,
        obj(vec![]),
    );
    expect_delivery_error(bus.send(overflow, 1), DeliveryError::Backpressure);
}

#[test]
fn test_broadcast_no_subscribers() {
    let mut bus = MessageBus::new(MessageBusConfig::default());
    let msg = Message::broadcast("lonely".to_string(), MessageType::StatusUpdate, obj(vec![]));
    expect_delivery_error(bus.send(msg, 1), DeliveryError::NoSubscribers);
}
