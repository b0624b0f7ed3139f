use amp_rs::checkpoints::storage::{agent_status_from, CheckpointStorage};
use amp_rs::checkpoints::{AgentState, Checkpoint};
use amp_rs::clock::Timestamp;
use amp_rs::storage::{sqlite::SqliteStorage, Storage};
use chrono::Utc;

fn setup() -> SqliteStorage {
    let storage = SqliteStorage::open_in_memory().unwrap();
    storage.migrate().unwrap();
    storage
}

fn object(pairs: &[(&str, serde_json::Value)]) -> serde_json::Value {
    let mut map = serde_json::Map::new();
    for (k, v) in pairs {
        map.insert(k.to_string(), v.clone());
    }
    serde_json::Value::Object(map)
}

fn insert_old_checkpoint(storage: &SqliteStorage, agent: &str, task: &str, hours_ago: i64) {
    insert_checkpoint_minutes_ago(storage, agent, task, hours_ago * 60);
}

fn insert_checkpoint_minutes_ago(storage: &SqliteStorage, agent: &str, task: &str, minutes_ago: i64) {
    let old_time = Utc::now() - chrono::Duration::minutes(minutes_ago);
    let id = uuid::Uuid::new_v4().to_string();
    let state_str = serde_json::to_string(&object(&[("data", serde_json::Value::from("old"))])).unwrap();
    let created = old_time.to_rfc3339();
    storage
        .connection()
        .execute(
            "INSERT INTO checkpoints (id, agent, working_on, state, created_at)
             VALUES (?1, ?2, ?3, ?4, ?5)",
            [id.as_str(), agent, task, state_str.as_str(), created.as_str()],
        )
        .unwrap();
}

#[test]
fn test_add_checkpoint() {
    let db = setup();
    let storage = CheckpointStorage::new(db.connection());

    let state = object(&[("key", serde_json::Value::from("value"))]);
    let result = storage.add("test-agent", "testing", &state);

    assert!(result.is_ok());
    let checkpoint = result.unwrap();
    assert_eq!(checkpoint.agent, "test-agent");
    assert_eq!(checkpoint.working_on, "testing");
    assert_eq!(checkpoint.state, state);
}

#[test]
fn test_get_agent_status_in_progress() {
    let db = setup();
    let storage = CheckpointStorage::new(db.connection());

    let state = object(&[("data", serde_json::Value::from("test"))]);
    storage.add("agent1", "current-task", &state).unwrap();

    let status = storage.get_agent_status("agent1").unwrap();
    assert_eq!(status.agent, "agent1");
    assert_eq!(status.status, AgentState::InProgress);
    assert_eq!(status.current_task, Some("current-task".to_string()));
    assert_eq!(status.checkpoint_count, 1);
    assert!(status.last_checkpoint_at.is_some());
}

#[test]
fn test_get_agent_status_idle() {
    let db = setup();
    let storage = CheckpointStorage::new(db.connection());

    insert_old_checkpoint(&db, "agent2", "old-task", 2);

    let status = storage.get_agent_status("agent2").unwrap();
    assert_eq!(status.agent, "agent2");
    assert_eq!(status.status, AgentState::Idle);
    assert_eq!(status.checkpoint_count, 1);
}

#[test]
fn test_multiple_agents() {
    let db = setup();
    let storage = CheckpointStorage::new(db.connection());

    let state = object(&[]);
    storage.add("agent1", "task", &state).unwrap();
    storage.add("agent2", "task", &state).unwrap();
    storage.add("agent3", "task", &state).unwrap();

    let agents = storage.list_agents().unwrap();
    assert_eq!(agents.len(), 3);
    assert_eq!(agents, vec!["agent1", "agent2", "agent3"]);
}

#[test]
fn test_list_agents() {
    let db = setup();
    let storage = CheckpointStorage::new(db.connection());

    let state = object(&[]);
    storage.add("agent-z", "task", &state).unwrap();
    storage.add("agent-a", "task", &state).unwrap();
    storage.add("agent-m", "task", &state).unwrap();
    storage.add("agent-a", "task2", &state).unwrap();

    let agents = storage.list_agents().unwrap();
    assert_eq!(agents.len(), 3);
    assert_eq!(agents[0], "agent-a");
    assert_eq!(agents[1], "agent-m");
    assert_eq!(agents[2], "agent-z");
}

#[test]
fn test_checkpoint_storage_add_and_retrieve() {
    let storage = setup();
    let checkpoint_storage = CheckpointStorage::new(storage.connection());

    let state = object(&[("key", serde_json::Value::from("value"))]);
    let checkpoint = checkpoint_storage
        .add("test-agent", "testing", &state)
        .unwrap();

    assert_eq!(checkpoint.agent, "test-agent");
    assert_eq!(checkpoint.working_on, "testing");
    assert_eq!(checkpoint.state, state);
}

#[test]
fn test_checkpoint_agent_status() {
    let storage = setup();
    let checkpoint_storage = CheckpointStorage::new(storage.connection());

    let state = object(&[("data", serde_json::Value::from("test"))]);
    checkpoint_storage
        .add("agent1", "current-task", &state)
        .unwrap();

    let status = checkpoint_storage.get_agent_status("agent1").unwrap();
    assert_eq!(status.agent, "agent1");
    assert_eq!(status.status, AgentState::InProgress);
    assert_eq!(status.current_task, Some("current-task".to_string()));
    assert_eq!(status.checkpoint_count, 1);
}

#[test]
fn test_checkpoint_list_agents() {
    let storage = setup();
    let checkpoint_storage = CheckpointStorage::new(storage.connection());

    let state = object(&[]);
    checkpoint_storage.add("agent-a", "task", &state).unwrap();
    checkpoint_storage.add("agent-b", "task", &state).unwrap();
    checkpoint_storage.add("agent-c", "task", &state).unwrap();

    let agents = checkpoint_storage.list_agents().unwrap();
    assert_eq!(agents.len(), 3);
    assert!(agents.contains(&"agent-a".to_string()));
    assert!(agents.contains(&"agent-b".to_string()));
    assert!(agents.contains(&"agent-c".to_string()));
}

#[test]
fn test_checkpoint_idle_detection() {
    let storage = setup();
    let checkpoint_storage = CheckpointStorage::new(storage.connection());

    let state = object(&[("data", serde_json::Value::from("recent"))]);
    checkpoint_storage
        .add("agent-recent", "current", &state)
        .unwrap();

    let status = checkpoint_storage
        .get_agent_status("agent-recent")
        .unwrap();
    assert_eq!(status.status, AgentState::InProgress);

    insert_old_checkpoint(&storage, "agent-old", "old-task", 2);

    let old_status = checkpoint_storage.get_agent_status("agent-old").unwrap();
    assert_eq!(old_status.status, AgentState::Idle);
}

#[test]
fn test_agent_status_unknown_agent() {
    let storage = setup();
    let checkpoint_storage = CheckpointStorage::new(storage.connection());
    let status = checkpoint_storage.get_agent_status("nobody").unwrap();
    assert_eq!(status.agent, "nobody");
    assert_eq!(status.status, AgentState::Idle);
    assert_eq!(status.current_task, None);
    assert_eq!(status.checkpoint_count, 0);
    assert!(status.last_checkpoint_at.is_none());
}

fn checkpoint_at(secs: i64) -> Checkpoint {
    Checkpoint {
        id: "c".to_string(),
        agent: "a".to_string(),
        working_on: "task".to_string(),
        state: object(&[]),
        created_at: Timestamp { secs, nanos: 0 },
    }
}

#[test]
fn test_agent_status_threshold() {
    let now = Timestamp { secs: 100_000, nanos: 0 };
    // Ninety minutes old: idle (more than one hour).
    let cp = checkpoint_at(100_000 - 5400);
    let s = agent_status_from("a", 3, Some(&cp), now);
    assert_eq!(s.status, AgentState::Idle);
    assert_eq!(s.current_task, Some("task".to_string()));
    assert_eq!(s.checkpoint_count, 3);
    assert_eq!(s.last_checkpoint_at, Some(Timestamp { secs: 100_000 - 5400, nanos: 0 }));
    // Exactly one hour: still in progress.
    let cp = checkpoint_at(100_000 - 3600);
    assert_eq!(agent_status_from("a", 1, Some(&cp), now).status, AgentState::InProgress);
    // One hour and a nanosecond: idle.
    let late = Timestamp { secs: 100_001, nanos: 1 };
    let cp = checkpoint_at(100_001 - 3600);
    assert_eq!(agent_status_from("a", 1, Some(&cp), late).status, AgentState::Idle);
    // A checkpoint from the future counts as recent.
    let cp = checkpoint_at(200_000);
    assert_eq!(agent_status_from("a", 1, Some(&cp), now).status, AgentState::InProgress);
    // No checkpoint: idle, no task.
    let s = agent_status_from("a", 0, None, now);
    assert_eq!(s.status, AgentState::Idle);
    assert_eq!(s.current_task, None);
}

#[test]
fn test_search_checkpoints_without_vector_extension() {
    let storage = setup();
    let checkpoint_storage = CheckpointStorage::new(storage.connection());
    let q: Vec<u8> = vec![0u8; 8];
    assert!(checkpoint_storage.search_by_embedding(&q, 5, None).is_err());
    assert!(checkpoint_storage.search_by_embedding(&q, 5, Some("a")).is_err());
}

#[test]
fn test_get_recent_newest_first() {
    let storage = setup();
    let cs = CheckpointStorage::new(storage.connection());
    insert_old_checkpoint(&storage, "agent", "task1", 3);
    insert_checkpoint_minutes_ago(&storage, "agent", "task3", 30);
    insert_old_checkpoint(&storage, "agent", "task2", 2);
    insert_checkpoint_minutes_ago(&storage, "other", "elsewhere", 30);
    let recent = cs.get_recent("agent", 2).unwrap();
    assert_eq!(recent.len(), 2);
    assert_eq!(recent[0].working_on, "task3");
    assert_eq!(recent[1].working_on, "task2");
    let status = cs.get_agent_status("agent").unwrap();
    assert_eq!(status.checkpoint_count, 3);
    assert_eq!(status.current_task, Some("task3".to_string()));
    assert_eq!(status.status, AgentState::InProgress);
}
