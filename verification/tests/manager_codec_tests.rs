use rusagent::codec::{message_from_json, message_to_json};
use rusagent::json::JsonValue;
use rusagent::manager::{AgentManager, AgentManagerConfig, DriverAction, dispatch_inbound};
use rusagent::message::{Message, MessagePriority, MessageType};
use rusagent::registry::{AgentInfo, AgentRegistry, RegistryConfig};
use rusagent::types::{AgentCapability, AgentStatus, AgentType};

fn obj(pairs: Vec<(&str, JsonValue)>) -> JsonValue {
    JsonValue::Obj(pairs.into_iter().map(|(k, v)| (k.to_string(), v)).collect())
}

#[test]
fn test_admit_and_release() {
    let mut mgr = AgentManager::new(AgentManagerConfig::default());
    mgr.admit_agent(
        "w1".to_string(),
        AgentType::Executor,
        vec![AgentCapability::TaskExecution],
    )
    .unwrap();
    assert_eq!(mgr.agent_count(), 1);
    assert!(mgr
        .admit_agent("w1".to_string(), AgentType::Executor, vec![])
        .is_err());

    mgr.release_agent("w1").unwrap();
    assert_eq!(mgr.agent_count(), 0);
    assert!(mgr.release_agent("w1").is_err());
}

#[test]
fn test_admit_cap() {
    let config = AgentManagerConfig { max_agents: 1, ..AgentManagerConfig::default() };
    let mut mgr = AgentManager::new(config);
    mgr.admit_agent("a".to_string(), AgentType::Monitor, vec![]).unwrap();
    assert!(mgr.admit_agent("b".to_string(), AgentType::Monitor, vec![]).is_err());
}

#[test]
fn test_dispatch_inbound() {
    let stop = Message::new(
        "m".to_string(),
        Some("w".to_string()),
        MessageType::Control(rusagent::message::ControlCommand::Shutdown),
        obj(vec![]),
    );
    assert_eq!(dispatch_inbound(false, &stop), DriverAction::Stop);

    let status = Message::new(
        "m".to_string(),
        Some("w".to_string()),
        MessageType::StatusUpdate,
        obj(vec![("status", JsonValue::Str("Busy".to_string()))]),
    );
    assert_eq!(
        dispatch_inbound(false, &status),
        DriverAction::UpdateStatus(AgentStatus::Busy)
    );

    let chatter = Message::new(
        "m".to_string(),
        Some("w".to_string()),
        MessageType::TaskAssignment,
        obj(vec![]),
    );
    assert_eq!(dispatch_inbound(true, &chatter), DriverAction::Hold);
    assert_eq!(dispatch_inbound(false, &chatter), DriverAction::Deliver);
}

#[test]
fn test_message_round_trip() {
    // serializing then deserializing preserves every field
    let msg = Message {
        id: "m1".to_string(),
        sender_id: "a1".to_string(),
        receiver_id: Some("a2".to_string()),
        message_type: MessageType::Custom("ping".to_string()),
        priority: MessagePriority::Urgent,
        payload: obj(vec![("n", JsonValue::Int(7))]),
        timestamp: 1000,
        correlation_id: None,
        expires_at: Some(2000),
    };
    let wire = message_to_json(&msg);
    let back = message_from_json(&wire).unwrap();
    assert_eq!(back.id, msg.id);
    assert_eq!(back.sender_id, msg.sender_id);
    assert_eq!(back.receiver_id, msg.receiver_id);
    assert!(back.message_type.same_as(&msg.message_type));
    assert_eq!(back.priority, msg.priority);
    assert_eq!(back.timestamp, msg.timestamp);
    assert_eq!(back.correlation_id, msg.correlation_id);
    assert_eq!(back.expires_at, msg.expires_at);
    match back.payload.get("n") {
        Some(JsonValue::Int(7)) => {}
        other => panic!("unexpected payload {:?}", other),
    }
    assert!(message_from_json(&JsonValue::Null).is_err());
}

#[test]
fn test_heartbeat_and_eviction() {
    // register "x", let its heartbeat age past the timeout, and reap it
    let mut registry = AgentRegistry::new(RegistryConfig::default());
    let mut info = AgentInfo::new("x".to_string(), AgentType::Monitor, vec![
        AgentCapability::Monitoring,
    ]);
    info.last_heartbeat = 100;
    registry.register(info).unwrap();

    // heartbeats at the same instant are idempotent for what is observable
    registry.heartbeat("x", 100).unwrap();
    registry.heartbeat("x", 100).unwrap();
    assert!(registry.get_agent("x").unwrap().is_alive(30, 129));

    let evicted = registry.cleanup_dead_agents(131);
    assert_eq!(evicted, vec!["x".to_string()]);
    assert!(registry.get_agent("x").is_none());
    assert!(registry.find_by_capability(&AgentCapability::Monitoring).is_empty());
    assert!(registry.heartbeat("x", 131).is_err());
}

#[test]
fn test_find_by_capability() {
    let mut registry = AgentRegistry::new(RegistryConfig::default());
    registry
        .register(AgentInfo::new(
            "agent1".to_string(),
            AgentType::Executor,
            vec![AgentCapability::TaskExecution],
        ))
        .unwrap();
    registry
        .register(AgentInfo::new(
            "agent2".to_string(),
            AgentType::Planner,
            vec![AgentCapability::TaskPlanning],
        ))
        .unwrap();

    let executors = registry.find_by_capability(&AgentCapability::TaskExecution);
    assert_eq!(executors.len(), 1);
    assert_eq!(executors[0].id, "agent1");
    let planners = registry.find_by_type(&AgentType::Planner);
    assert_eq!(planners.len(), 1);
    assert_eq!(planners[0].id, "agent2");
}

#[test]
fn test_update_status_and_find_idle() {
    let mut registry = AgentRegistry::new(RegistryConfig::default());
    registry
        .register(AgentInfo::new("a".to_string(), AgentType::Executor, vec![]))
        .unwrap();
    registry.update_status("a", AgentStatus::Idle).unwrap();
    let idle = registry.find_idle_agents();
    assert_eq!(idle.len(), 1);
    assert_eq!(idle[0].status, AgentStatus::Idle);
    assert!(registry.update_status("ghost", AgentStatus::Idle).is_err());
}
