use amp_rs::checkpoints::storage::{keep_agent_checkpoints, keep_agent_matches, CheckpointStorage};
use amp_rs::checkpoints::Checkpoint;
use amp_rs::clock::Timestamp;
use amp_rs::lessons::storage::{keep_severity, lesson_insert_args, lesson_lookup, LessonStorage};
use amp_rs::lessons::{Lesson, Severity};
use amp_rs::sql::{SqlNumber, SqlValue};
use amp_rs::storage::{sqlite::SqliteStorage, Storage};

fn lesson(id: &str, severity: Severity) -> Lesson {
    Lesson {
        id: id.to_string(),
        title: format!("title {}", id),
        content: "content".to_string(),
        tags: vec![],
        severity,
        created_at: Timestamp { secs: 1_700_000_000, nanos: 0 },
        updated_at: Timestamp { secs: 1_700_000_000, nanos: 0 },
    }
}

fn checkpoint(id: &str, agent: &str) -> Checkpoint {
    Checkpoint {
        id: id.to_string(),
        agent: agent.to_string(),
        working_on: "task".to_string(),
        state: serde_json::Value::Null,
        created_at: Timestamp { secs: 86_400, nanos: 0 },
    }
}

#[test]
fn test_lesson_lookup_without_rows_is_none() {
    let rows: Vec<Vec<SqlValue>> = Vec::new();
    assert!(lesson_lookup("abc", &rows).unwrap().is_none());
}

#[test]
fn test_lesson_lookup_reads_matching_row() {
    let row = lesson_insert_args(&lesson("abc", Severity::Warning)).unwrap();
    let found = lesson_lookup("abc", &vec![row]).unwrap().unwrap();
    assert_eq!(found.id, "abc");
    assert_eq!(found.title, "title abc");
    assert_eq!(found.severity, Severity::Warning);
}

#[test]
fn test_lesson_lookup_row_of_other_id_is_none() {
    let row = lesson_insert_args(&lesson("other", Severity::Info)).unwrap();
    assert!(lesson_lookup("abc", &vec![row]).unwrap().is_none());
}

#[test]
fn test_lesson_lookup_bad_row_is_error() {
    let row = vec![SqlValue::Integer(1); 7];
    assert!(lesson_lookup("abc", &vec![row]).is_err());
}

#[test]
fn test_keep_severity_filters_and_limits() {
    let v = vec![
        lesson("a", Severity::Info),
        lesson("b", Severity::Critical),
        lesson("c", Severity::Critical),
        lesson("d", Severity::Critical),
    ];
    let kept = keep_severity(v.clone(), Some(&Severity::Critical), 2);
    let ids: Vec<&str> = kept.iter().map(|l| l.id.as_str()).collect();
    assert_eq!(ids, vec!["b", "c"]);
    let all = keep_severity(v.clone(), None, 10);
    assert_eq!(all.len(), 4);
    assert!(keep_severity(v, None, 0).is_empty());
}

#[test]
fn test_keep_agent_checkpoints_filters_and_limits() {
    let v = vec![checkpoint("1", "x"), checkpoint("2", "y"), checkpoint("3", "x"), checkpoint("4", "x")];
    let kept = keep_agent_checkpoints(v.clone(), "x", 2);
    let ids: Vec<&str> = kept.iter().map(|c| c.id.as_str()).collect();
    assert_eq!(ids, vec!["1", "3"]);
    assert!(keep_agent_checkpoints(v, "z", 5).is_empty());
}

#[test]
fn test_keep_agent_matches_with_and_without_filter() {
    let v = vec![
        (checkpoint("1", "x"), SqlNumber::Integer(1)),
        (checkpoint("2", "y"), SqlNumber::Integer(2)),
        (checkpoint("3", "x"), SqlNumber::Integer(3)),
    ];
    let only_y = keep_agent_matches(v.clone(), Some("y"), 5);
    assert_eq!(only_y.len(), 1);
    assert_eq!(only_y[0].0.id, "2");
    let first_two = keep_agent_matches(v, None, 2);
    let ids: Vec<&str> = first_two.iter().map(|m| m.0.id.as_str()).collect();
    assert_eq!(ids, vec!["1", "2"]);
}

#[test]
fn test_list_respects_limit_and_severity() {
    let storage = SqliteStorage::open_in_memory().unwrap();
    storage.migrate().unwrap();
    let ls = LessonStorage::new(storage.connection());
    for i in 0..3 {
        ls.add(&format!("e{}", i), "c", &[], &Severity::Critical).unwrap();
    }
    ls.add("i", "c", &[], &Severity::Info).unwrap();
    assert_eq!(ls.list(None, 2).unwrap().len(), 2);
    let errors = ls.list(Some(&Severity::Critical), 10).unwrap();
    assert_eq!(errors.len(), 3);
    assert!(errors.iter().all(|l| l.severity == Severity::Critical));
}

#[test]
fn test_get_recent_keeps_agent_and_limit() {
    let storage = SqliteStorage::open_in_memory().unwrap();
    storage.migrate().unwrap();
    let cs = CheckpointStorage::new(storage.connection());
    for _ in 0..3 {
        cs.add("x", "t", &serde_json::Value::Null).unwrap();
    }
    cs.add("y", "t", &serde_json::Value::Null).unwrap();
    let recent = cs.get_recent("x", 2).unwrap();
    assert_eq!(recent.len(), 2);
    assert!(recent.iter().all(|c| c.agent == "x"));
    assert_eq!(cs.get_recent("y", 5).unwrap().len(), 1);
}
