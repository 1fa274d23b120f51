use rusagent::context::MemoryPoolConfig;
use rusagent::json::JsonValue;
use rusagent::memory::{MemoryEntry, MemoryPool};
use rusagent::types::AccessLevel;

fn obj(pairs: Vec<(&str, JsonValue)>) -> JsonValue {
    JsonValue::Obj(pairs.into_iter().map(|(k, v)| (k.to_string(), v)).collect())
}

fn entry(key: &str, value: JsonValue, by: &str) -> MemoryEntry {
    MemoryEntry::new(key.to_string(), value, by.to_string(), AccessLevel::Public)
}

#[test]
fn test_memory_pool() {
    let mut pool = MemoryPool::new(MemoryPoolConfig::default());

    let e = entry(
        "test_key",
        obj(vec![("data", JsonValue::Str("test_value".to_string()))]),
        "test_agent",
    );
    pool.set_global(e).unwrap();

    let retrieved = pool.get_global("test_key", 0).unwrap();
    assert_eq!(retrieved.key, "test_key");
    assert_eq!(retrieved.created_by, "test_agent");

    let agent_entry = entry(
        "agent_key",
        obj(vec![("private", JsonValue::Str("data".to_string()))]),
        "agent1",
    );
    pool.set_agent("agent1", agent_entry).unwrap();

    let agent_data = pool.get_agent("agent1", "agent_key", 0).unwrap();
    assert_eq!(agent_data.key, "agent_key");
}

#[test]
fn test_capacity_new_vs_existing_key() {
    // a tier at capacity refuses a new key but still lets an existing one be
    // replaced
    let config = MemoryPoolConfig {
        max_global_entries: 1,
        max_agent_entries: 1,
        enable_ttl: true,
        cleanup_interval_secs: 60,
    };
    let mut pool = MemoryPool::new(config);

    pool.set_global(entry("k", JsonValue::Int(1), "a")).unwrap();
    assert!(pool.set_global(entry("other", JsonValue::Int(2), "a")).is_err());
    pool.set_global(entry("k", JsonValue::Int(3), "a")).unwrap();
    match pool.get_global("k", 0).unwrap().value {
        JsonValue::Int(3) => {}
        other => panic!("unexpected value {:?}", other),
    }
}

#[test]
fn test_memory_ttl() {
    // set with a one-second TTL at time 10: visible at 10, gone after 12
    let mut pool = MemoryPool::new(MemoryPoolConfig::default());
    let mut e = entry("k", JsonValue::Int(1), "a").with_ttl(1);
    e.created_at = 10;
    pool.set_global(e).unwrap();

    assert!(pool.get_global("k", 10).is_some());
    assert!(pool.get_global("k", 12).is_none());
    assert!(pool.cleanup_expired(12) >= 1);
    assert!(pool.get_global("k", 12).is_none());
    assert_eq!(pool.get_stats().global_entries, 0);
}

#[test]
fn test_delete_and_clear() {
    let mut pool = MemoryPool::new(MemoryPoolConfig::default());
    pool.set_global(entry("g", JsonValue::Int(1), "a")).unwrap();
    pool.set_agent("a1", entry("k1", JsonValue::Int(2), "a1")).unwrap();
    pool.set_agent("a1", entry("k2", JsonValue::Int(3), "a1")).unwrap();

    pool.delete_global("g").unwrap();
    assert!(pool.get_global("g", 0).is_none());
    assert_eq!(pool.list_global_keys().len(), 0);

    assert_eq!(pool.list_agent_keys("a1").len(), 2);
    pool.delete_agent("a1", "k1").unwrap();
    assert_eq!(pool.list_agent_keys("a1").len(), 1);
    pool.clear_agent("a1").unwrap();
    assert_eq!(pool.list_agent_keys("a1").len(), 0);
}
