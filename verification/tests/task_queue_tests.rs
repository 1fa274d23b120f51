use rusagent::json::JsonValue;
use rusagent::task_queue::{Task, TaskQueue};
use rusagent::types::{Priority, TaskStatus, TaskType};

fn obj(pairs: Vec<(&str, JsonValue)>) -> JsonValue {
    JsonValue::Obj(pairs.into_iter().map(|(k, v)| (k.to_string(), v)).collect())
}

fn plain_task(id: &str, priority: Priority, deps: Vec<&str>) -> Task {
    Task {
        id: id.to_string(),
        task_type: TaskType::Execution,
        priority,
        status: TaskStatus::Pending,
        payload: obj(vec![]),
        dependencies: deps.into_iter().map(|d| d.to_string()).collect(),
        assigned_to: None,
        created_by: "test_agent".to_string(),
        created_at: 0,
        updated_at: 0,
        deadline: None,
        metadata: obj(vec![]),
    }
}

#[test]
fn test_task_queue() {
    let mut queue = TaskQueue::new();

    let high_priority_task = Task::new(
        TaskType::Execution,
        Priority::High,
        obj(vec![("action", JsonValue::Str("important".to_string()))]),
        "test_agent".to_string(),
    );
    let normal_priority_task = Task::new(
        TaskType::Planning,
        Priority::Normal,
        obj(vec![("action", JsonValue::Str("normal".to_string()))]),
        "test_agent".to_string(),
    );

    queue.enqueue(high_priority_task).unwrap();
    queue.enqueue(normal_priority_task).unwrap();

    let dequeued = queue.dequeue().unwrap();
    assert_eq!(dequeued.priority, Priority::High);
}

#[test]
fn test_priority_and_dependency() {
    // task A: Critical, depends on B; task B: Low, no dependencies
    let mut queue = TaskQueue::new();
    queue.enqueue(plain_task("A", Priority::Critical, vec!["B"])).unwrap();
    queue.enqueue(plain_task("B", Priority::Low, vec![])).unwrap();

    let first = queue.dequeue().unwrap();
    assert_eq!(first.id, "B");

    queue.mark_in_progress(first, 1).unwrap();
    queue.mark_completed("B", 2).unwrap();

    let second = queue.dequeue().unwrap();
    assert_eq!(second.id, "A");

    assert!(queue.dequeue().is_none());
}

#[test]
fn test_priority_two_bands() {
    let mut queue = TaskQueue::new();
    queue.enqueue(plain_task("low", Priority::Low, vec![])).unwrap();
    queue.enqueue(plain_task("crit", Priority::Critical, vec![])).unwrap();

    assert_eq!(queue.dequeue().unwrap().id, "crit");
    assert_eq!(queue.dequeue().unwrap().id, "low");
    assert!(queue.dequeue().is_none());
}

#[test]
fn test_mark_failed_blocks_dependents() {
    let mut queue = TaskQueue::new();
    queue.enqueue(plain_task("child", Priority::Critical, vec!["parent"])).unwrap();
    queue.enqueue(plain_task("parent", Priority::Low, vec![])).unwrap();

    let parent = queue.dequeue().unwrap();
    queue.mark_in_progress(parent, 1).unwrap();
    queue.mark_failed("parent", "boom".to_string(), 2).unwrap();

    // a failed dependency never becomes satisfied
    assert!(queue.dequeue().is_none());
    match queue.get_task_status("parent") {
        Some(TaskStatus::Failed(reason)) => assert_eq!(reason, "boom"),
        other => panic!("unexpected status {:?}", other),
    }
}

#[test]
fn test_task_not_found() {
    let mut queue = TaskQueue::new();
    assert!(queue.mark_completed("nope", 1).is_err());
    assert!(queue.mark_failed("nope", "r".to_string(), 1).is_err());
}

#[test]
fn test_cleanup_expired() {
    let mut queue = TaskQueue::new();
    queue.enqueue(plain_task("fresh", Priority::Normal, vec![])).unwrap();
    queue.enqueue(plain_task("stale", Priority::Normal, vec![]).with_deadline(5)).unwrap();

    assert_eq!(queue.cleanup_expired(10), 1);
    assert_eq!(queue.size(), 1);
    assert_eq!(queue.dequeue().unwrap().id, "fresh");
}
