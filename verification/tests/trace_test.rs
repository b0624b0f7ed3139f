use amp_rs::checkpoints::storage::CheckpointStorage;
use amp_rs::indexing::storage::{indexed_file_lookup, paths_from_rows, ChunkStorage};
use amp_rs::indexing::CodeChunk;
use amp_rs::lessons::storage::{removed_any, LessonStorage};
use amp_rs::lessons::Severity;
use amp_rs::sql::SqlValue;
use amp_rs::storage::{sqlite::SqliteStorage, Storage};
use amp_rs::watcher::handler::{diff_index_traced, full_reindex_traced};

fn setup() -> SqliteStorage {
    let storage = SqliteStorage::open_in_memory().unwrap();
    storage.migrate().unwrap();
    storage
}

fn text(s: &str) -> SqlValue {
    SqlValue::Text(s.to_string())
}

#[test]
fn test_removed_any() {
    assert!(!removed_any(0));
    assert!(removed_any(1));
    assert!(removed_any(3));
}

#[test]
fn test_add_traced_then_get_traced() {
    let storage = setup();
    let ls = LessonStorage::new(storage.connection());
    let (added, _) = ls.add_traced("T", "C", &["x".to_string()], &Severity::Warning);
    let added = added.unwrap();
    let (got, _) = ls.get_traced(&added.id);
    let got = got.unwrap().unwrap();
    assert_eq!((got.title.as_str(), got.content.as_str()), ("T", "C"));
    assert_eq!(got.tags, vec!["x".to_string()]);
    assert_eq!(got.severity, Severity::Warning);
    assert_eq!(got.created_at, added.created_at);
}

#[test]
fn test_delete_traced_reports_whether_a_row_went() {
    let storage = setup();
    let ls = LessonStorage::new(storage.connection());
    let l = ls.add("T", "C", &[], &Severity::Info).unwrap();
    assert!(ls.delete_traced(&l.id).0.unwrap());
    assert!(!ls.delete_traced(&l.id).0.unwrap());
    assert!(ls.get(&l.id).unwrap().is_none());
}

#[test]
fn test_checkpoint_add_traced() {
    let storage = setup();
    let cs = CheckpointStorage::new(storage.connection());
    let (c, _) = cs.add_traced("agent", "task", &serde_json::Value::Null);
    let c = c.unwrap();
    let recent = cs.get_recent("agent", 1).unwrap();
    assert_eq!(recent[0].id, c.id);
    assert_eq!(recent[0].working_on, "task");
}

#[test]
fn test_indexed_file_lookup_and_paths_from_rows() {
    let row = vec![text("/r/a.rs"), text("/r"), SqlValue::Integer(5), SqlValue::Integer(10)];
    let f = indexed_file_lookup("/r/a.rs", &vec![row.clone()]).unwrap().unwrap();
    assert_eq!((f.mtime, f.size), (5, 10));
    assert!(indexed_file_lookup("/r/b.rs", &vec![row]).unwrap().is_none());
    assert!(indexed_file_lookup("/r/a.rs", &vec![]).unwrap().is_none());
    let rows = vec![vec![text("/r/a.rs"), text("/r")], vec![text("/o/b.rs"), text("/o")], vec![text("/r/c.rs"), text("/r")]];
    assert_eq!(paths_from_rows("/r", &rows).unwrap(), vec!["/r/a.rs".to_string(), "/r/c.rs".to_string()]);
    assert!(paths_from_rows("/r", &vec![vec![SqlValue::Null, text("/r")]]).is_err());
}

#[test]
fn test_update_then_get_indexed_file_traced() {
    let storage = setup();
    let cs = ChunkStorage::new(storage.connection());
    cs.update_indexed_file_traced("/r/a.rs", "/r", 42, 7).0.unwrap();
    let f = cs.get_indexed_file_traced("/r/a.rs").0.unwrap().unwrap();
    assert_eq!((f.repo_path.as_str(), f.mtime, f.size), ("/r", 42, 7));
}

#[test]
fn test_store_and_delete_chunks_traced() {
    let storage = setup();
    let cs = ChunkStorage::new(storage.connection());
    let chunk = CodeChunk {
        id: "c1".to_string(),
        file_path: "/r/a.rs".to_string(),
        repo_path: "/r".to_string(),
        content: "fn a() {}".to_string(),
        language: Some("rust".to_string()),
        start_line: 1,
        end_line: 1,
        chunk_type: "semantic".to_string(),
    };
    let (stored, _) = cs.store_chunk_traced(&chunk);
    stored.unwrap();
    // Without the vector extension there is no embeddings table, so deleting
    // the chunk's embedding fails and the failure is passed on.
    assert!(cs.delete_file_chunks_traced("/r/a.rs").0.is_err());
    assert_eq!(cs.delete_file_chunks_traced("/r/none.rs").0.unwrap(), 0);
    let (none, _) = cs.store_chunks_traced(&[], &Vec::new());
    assert_eq!(none.unwrap(), 0);
}

#[test]
fn test_diff_and_full_reindex_traced() {
    let storage = setup();
    let cs = ChunkStorage::new(storage.connection());
    cs.update_indexed_file("/r/gone.rs", "/r", 1, 1).unwrap();
    let (d, _) = diff_index_traced(storage.connection(), "/r", &Vec::new());
    assert_eq!(d.unwrap().deleted_files, vec!["/r/gone.rs".to_string()]);
    let (n, _) = full_reindex_traced(storage.connection(), "/r", &Vec::new());
    assert_eq!(n.unwrap(), 0);
    assert!(cs.list_indexed_files("/r").unwrap().is_empty());
}
