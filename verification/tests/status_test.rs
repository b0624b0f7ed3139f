use amp_rs::checkpoints::storage::{count_cell, status_from};
use amp_rs::checkpoints::{AgentState, Checkpoint};
use amp_rs::clock::Timestamp;
use amp_rs::http::routes::{count_or_zero, status_with};
use amp_rs::sql::{
    blob_limit_args, key_args, key_blob_args, key_blob_limit_args, key_limit_args, key_text_args,
    limit_args, SqlValue,
};
use amp_rs::storage::{sqlite::SqliteStorage, Storage};

fn checkpoint(task: &str, secs: i64) -> Checkpoint {
    Checkpoint {
        id: "c".to_string(),
        agent: "a".to_string(),
        working_on: task.to_string(),
        state: serde_json::Value::Null,
        created_at: Timestamp { secs, nanos: 0 },
    }
}

#[test]
fn test_count_cell() {
    assert_eq!(count_cell(&vec![vec![SqlValue::Integer(7)]]).unwrap(), 7);
    assert!(count_cell(&vec![]).is_err());
    assert!(count_cell(&vec![vec![SqlValue::Integer(-1)]]).is_err());
    assert!(count_cell(&vec![vec![SqlValue::Text("7".to_string())]]).is_err());
}

#[test]
fn test_status_from_latest_and_none() {
    let now = Timestamp { secs: 10_000, nanos: 0 };
    let recent = vec![checkpoint("writing", 10_000 - 1800), checkpoint("older", 0)];
    let s = status_from("a", 2, &recent, now);
    assert_eq!(s.status, AgentState::InProgress);
    assert_eq!(s.current_task, Some("writing".to_string()));
    assert_eq!(s.checkpoint_count, 2);
    let stale = status_from("a", 1, &vec![checkpoint("old", 10_000 - 3601)], now);
    assert_eq!(stale.status, AgentState::Idle);
    let none = status_from("a", 0, &Vec::new(), now);
    assert_eq!(none.status, AgentState::Idle);
    assert!(none.current_task.is_none());
    assert!(none.last_checkpoint_at.is_none());
}

#[test]
fn test_count_or_zero() {
    assert_eq!(count_or_zero(Some(&vec![vec![SqlValue::Integer(3)]])), 3);
    assert_eq!(count_or_zero(Some(&vec![])), 0);
    assert_eq!(count_or_zero(Some(&vec![vec![SqlValue::Null]])), 0);
    assert_eq!(count_or_zero(None), 0);
}

#[test]
fn test_status_with_database_and_without() {
    let start = Timestamp { secs: 100, nanos: 0 };
    let now = Timestamp { secs: 161, nanos: 500_000_000 };
    let none = status_with(None, start, now);
    assert_eq!(none.status, "ok");
    assert_eq!((none.lessons_count, none.checkpoints_count, none.chunks_count), (0, 0, 0));
    assert_eq!(none.uptime_seconds, 61);
    let storage = SqliteStorage::open_in_memory().unwrap();
    storage.migrate().unwrap();
    storage
        .connection()
        .execute(
            "INSERT INTO lessons (id, title, content, tags, severity, created_at, updated_at) VALUES ('i', 't', 'c', '[]', 'info', 'x', 'x')",
            [],
        )
        .unwrap();
    let with = status_with(Some(storage.connection()), start, now);
    assert_eq!((with.lessons_count, with.checkpoints_count, with.chunks_count), (1, 0, 0));
}

#[test]
fn test_argument_builders() {
    let k = key_args("id1");
    assert!(matches!(&k[..], [SqlValue::Text(t)] if t == "id1"));
    let kl = key_limit_args("agent", 5);
    assert!(matches!(&kl[..], [SqlValue::Text(t), SqlValue::Integer(5)] if t == "agent"));
    assert!(matches!(&limit_args(usize::MAX)[..], [SqlValue::Integer(-1)]));
    let b = vec![1u8, 2];
    assert!(matches!(&blob_limit_args(&b, 3)[..], [SqlValue::Blob(x), SqlValue::Integer(3)] if x == &b));
    assert!(matches!(&key_blob_limit_args("a", &b, 0)[..], [SqlValue::Text(_), SqlValue::Blob(_), SqlValue::Integer(0)]));
    assert!(matches!(&key_blob_args("a", &b)[..], [SqlValue::Text(t), SqlValue::Blob(_)] if t == "a"));
    assert!(matches!(&key_text_args("a", "[1]")[..], [SqlValue::Text(_), SqlValue::Text(j)] if j == "[1]"));
}
