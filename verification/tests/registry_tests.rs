use rusagent::registry::{AgentInfo, AgentRegistry, RegistryConfig};
use rusagent::types::{AgentCapability, AgentType};

#[test]
fn test_agent_registration() {
    let mut registry = AgentRegistry::new(RegistryConfig::default());

    let agent_info = AgentInfo::new(
        "test-agent".to_string(),
        AgentType::Executor,
        vec![AgentCapability::TaskExecution],
    );
    registry.register(agent_info).unwrap();

    // a second registration under the same id is refused
    let dup = AgentInfo::new(
        "test-agent".to_string(),
        AgentType::Planner,
        vec![AgentCapability::TaskPlanning],
    );
    assert!(registry.register(dup).is_err());
}

#[test]
fn test_unregister() {
    let mut registry = AgentRegistry::new(RegistryConfig::default());
    let info = AgentInfo::new(
        "a1".to_string(),
        AgentType::Monitor,
        vec![AgentCapability::Monitoring],
    );
    registry.register(info).unwrap();
    registry.unregister("a1").unwrap();

    // gone for good: a repeated unregister misses
    assert!(registry.unregister("a1").is_err());
}

#[test]
fn test_alive_window() {
    let info = AgentInfo::new("x".to_string(), AgentType::Master, vec![]);
    let mut info = info;
    info.update_heartbeat(100);
    assert!(info.is_alive(30, 129));
    assert!(!info.is_alive(30, 130));
}
