use amp_rs::storage::schema::{create_vector_tables, run_migrations};
use amp_rs::storage::{sqlite::SqliteStorage, Storage};

fn test_data_dir() -> (tempfile::TempDir, std::path::PathBuf) {
    let dir = tempfile::TempDir::new().expect("Failed to create temp dir");
    let path = dir.path().to_path_buf();
    (dir, path)
}

#[test]
fn placeholder_test() {
    let (_dir, path) = test_data_dir();
    assert!(path.exists());
}

#[test]
fn test_open_in_memory() {
    let storage = SqliteStorage::open_in_memory().unwrap();
    storage.migrate().unwrap();
    let count: i32 = storage
        .connection()
        .query_row(
            "SELECT COUNT(*) FROM sqlite_master WHERE type='table' AND name='lessons'",
            [],
            |row| row.get(0),
        )
        .unwrap();
    assert_eq!(count, 1);
}

#[test]
fn test_open_file_based() {
    let (_dir, path) = test_data_dir();
    let db_path = path.join("test.db");
    let storage = SqliteStorage::open(db_path.to_str().unwrap()).unwrap();
    storage.migrate().unwrap();
    assert!(db_path.exists());
}

#[test]
fn test_wal_mode() {
    let (_dir, path) = test_data_dir();
    let db_path = path.join("test.db");
    let file_storage = SqliteStorage::open(db_path.to_str().unwrap()).unwrap();
    let mode: String = file_storage
        .connection()
        .query_row("PRAGMA journal_mode", [], |row| row.get(0))
        .unwrap();
    assert_eq!(mode, "wal");
}

#[test]
fn test_migration_idempotent() {
    let storage = SqliteStorage::open_in_memory().unwrap();
    storage.migrate().unwrap();
    storage.migrate().unwrap();
}

#[test]
fn test_all_tables_created() {
    let storage = SqliteStorage::open_in_memory().unwrap();
    storage.migrate().unwrap();
    let tables = vec![
        "lessons",
        "checkpoints",
        "code_chunks",
        "indexed_files",
        "schema_version",
    ];
    for table in tables {
        let exists: bool = storage
            .connection()
            .query_row(
                "SELECT COUNT(*) > 0 FROM sqlite_master WHERE type='table' AND name=?1",
                [table],
                |row| row.get(0),
            )
            .unwrap();
        assert!(exists, "Table '{}' should exist", table);
    }
}

#[test]
fn test_storage_trait_send() {
    fn assert_send<T: Send>() {}
    assert_send::<SqliteStorage>();
}

#[test]
fn test_foreign_keys_enabled() {
    let storage = SqliteStorage::open_in_memory().unwrap();
    let enabled: i32 = storage
        .connection()
        .query_row("PRAGMA foreign_keys", [], |row| row.get(0))
        .unwrap();
    assert_eq!(enabled, 1, "Foreign keys should be enabled");
}

#[test]
fn test_schema_version_tracked() {
    let storage = SqliteStorage::open_in_memory().unwrap();
    storage.migrate().unwrap();

    let version: i32 = storage
        .connection()
        .query_row(
            "SELECT COALESCE(MAX(version), 0) FROM schema_version",
            [],
            |row| row.get(0),
        )
        .unwrap();
    assert_eq!(version, 1, "Schema version should be 1");
}

#[test]
fn test_indexes_created() {
    let storage = SqliteStorage::open_in_memory().unwrap();
    storage.migrate().unwrap();

    let indexes = vec![
        "idx_lessons_severity",
        "idx_checkpoints_agent",
        "idx_checkpoints_created",
        "idx_code_chunks_file",
        "idx_code_chunks_repo",
        "idx_indexed_files_repo",
    ];

    for idx in indexes {
        let exists: bool = storage
            .connection()
            .query_row(
                "SELECT COUNT(*) > 0 FROM sqlite_master WHERE type='index' AND name=?1",
                [idx],
                |row| row.get(0),
            )
            .unwrap();
        assert!(exists, "Index '{}' should exist", idx);
    }
}

#[test]
fn test_migration_creates_version_table() {
    let conn = rusqlite::Connection::open_in_memory().unwrap();
    run_migrations(&conn).unwrap();

    let count: i32 = conn
        .query_row(
            "SELECT COUNT(*) FROM sqlite_master WHERE type='table' AND name='schema_version'",
            [],
            |row| row.get(0),
        )
        .unwrap();
    assert_eq!(count, 1);
}

#[test]
fn test_migration_creates_all_tables() {
    let conn = rusqlite::Connection::open_in_memory().unwrap();
    run_migrations(&conn).unwrap();

    let tables = vec!["lessons", "checkpoints", "code_chunks", "indexed_files"];
    for table in tables {
        let count: i32 = conn
            .query_row(
                "SELECT COUNT(*) FROM sqlite_master WHERE type='table' AND name=?1",
                [table],
                |row| row.get(0),
            )
            .unwrap();
        assert_eq!(count, 1, "Table '{}' should exist", table);
    }
}

#[test]
fn test_migration_records_version_once() {
    let conn = rusqlite::Connection::open_in_memory().unwrap();
    run_migrations(&conn).unwrap();
    run_migrations(&conn).unwrap();
    let rows: i32 = conn
        .query_row("SELECT COUNT(*) FROM schema_version", [], |row| row.get(0))
        .unwrap();
    assert_eq!(rows, 1);
}

#[test]
fn test_vector_tables_without_extension() {
    // The sqlite-vec extension is not loaded here, so creating the virtual
    // tables fails with a storage error.
    let storage = SqliteStorage::open_in_memory().unwrap();
    storage.migrate().unwrap();
    let r = create_vector_tables(storage.connection());
    assert!(matches!(r, Err(amp_rs::error::AmpError::Storage(_))));
}
