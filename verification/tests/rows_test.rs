use amp_rs::checkpoints::storage::{checkpoint_from_row, checkpoint_insert_args};
use amp_rs::checkpoints::Checkpoint;
use amp_rs::clock::Timestamp;
use amp_rs::indexing::storage::{chunk_args, indexed_file_args, indexed_file_from_row};
use amp_rs::indexing::CodeChunk;
use amp_rs::lessons::storage::{lesson_from_row, lesson_insert_args};
use amp_rs::lessons::{Lesson, Severity};
use amp_rs::sql::SqlValue;

#[test]
fn test_lesson_row_reads_back() {
    let lesson = Lesson {
        id: "0123".to_string(),
        title: "T".to_string(),
        content: "C\nmore".to_string(),
        tags: vec!["a".to_string(), "b \"q\"".to_string()],
        severity: Severity::Warning,
        created_at: Timestamp { secs: 1700000000, nanos: 123_000_000 },
        updated_at: Timestamp { secs: 1700000001, nanos: 0 },
    };
    let row = lesson_insert_args(&lesson).unwrap();
    assert_eq!(row.len(), 7);
    match &row[4] {
        SqlValue::Text(s) => assert_eq!(s, "warning"),
        _ => panic!("severity cell"),
    }
    match &row[5] {
        SqlValue::Text(s) => assert_eq!(s, "2023-11-14T22:13:20.123+00:00"),
        _ => panic!("time cell"),
    }
    let back = lesson_from_row(&row).unwrap();
    assert_eq!(back.id, lesson.id);
    assert_eq!(back.title, lesson.title);
    assert_eq!(back.content, lesson.content);
    assert_eq!(back.tags, lesson.tags);
    assert_eq!(back.severity, lesson.severity);
    assert_eq!(back.created_at, lesson.created_at);
    assert_eq!(back.updated_at, lesson.updated_at);
}

#[test]
fn test_lesson_row_unwritable_time() {
    let lesson = Lesson {
        id: "x".to_string(),
        title: "T".to_string(),
        content: "C".to_string(),
        tags: Vec::new(),
        severity: Severity::Info,
        created_at: Timestamp { secs: 0, nanos: 3_000_000_000 },
        updated_at: Timestamp { secs: 0, nanos: 0 },
    };
    assert!(lesson_insert_args(&lesson).is_none());
}

#[test]
fn test_checkpoint_row_reads_back() {
    let c = Checkpoint {
        id: "id1".to_string(),
        agent: "agent".to_string(),
        working_on: "task".to_string(),
        state: serde_json::Value::from(vec![1, 2]),
        created_at: Timestamp { secs: 86_400, nanos: 5 },
    };
    let row = checkpoint_insert_args(&c, "[1,2]".to_string()).unwrap();
    let back = checkpoint_from_row(&row).unwrap();
    assert_eq!(back.id, "id1");
    assert_eq!(back.agent, "agent");
    assert_eq!(back.working_on, "task");
    assert_eq!(back.state, c.state);
    assert_eq!(back.created_at, c.created_at);
}

#[test]
fn test_indexed_file_row_reads_back() {
    let row = indexed_file_args("/r/a.rs", "/r", 42, 7);
    let f = indexed_file_from_row(&row).unwrap();
    assert_eq!((f.file_path.as_str(), f.repo_path.as_str(), f.mtime, f.size), ("/r/a.rs", "/r", 42, 7));
}

#[test]
fn test_chunk_args_cells() {
    let c = CodeChunk {
        id: "c".to_string(),
        file_path: "/r/a.rs".to_string(),
        repo_path: "/r".to_string(),
        content: "fn a() {}".to_string(),
        language: None,
        start_line: 3,
        end_line: 4,
        chunk_type: "semantic".to_string(),
    };
    let row = chunk_args(&c);
    assert_eq!(row.len(), 8);
    assert!(matches!(row[4], SqlValue::Null));
    assert!(matches!(row[5], SqlValue::Integer(3)));
    assert!(matches!(row[6], SqlValue::Integer(4)));
}
