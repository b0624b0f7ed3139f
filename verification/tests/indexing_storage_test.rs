use amp_rs::indexing::storage::ChunkStorage;
use amp_rs::indexing::CodeChunk;
use amp_rs::storage::schema::create_vector_tables;
use amp_rs::storage::{sqlite::SqliteStorage, Storage};

fn embedding_json() -> String {
    let v: Vec<f32> = vec![0.1; 384];
    serde_json::to_string(&v).unwrap()
}

fn chunk(id: &str, content: &str, line: usize) -> CodeChunk {
    CodeChunk {
        id: id.to_string(),
        file_path: "/test/file.rs".to_string(),
        repo_path: "/test".to_string(),
        content: content.to_string(),
        language: Some("rust".to_string()),
        start_line: line,
        end_line: line,
        chunk_type: "function".to_string(),
    }
}

#[test]
fn test_store_and_retrieve_chunks() {
    let temp_file = tempfile::NamedTempFile::new().unwrap();
    let db_path = temp_file.path().to_path_buf();

    let storage = SqliteStorage::open(db_path.to_str().unwrap()).unwrap();
    storage.migrate().unwrap();
    let _ = create_vector_tables(storage.connection());

    let chunk_storage = ChunkStorage::new(storage.connection());

    let chunks = vec![chunk("test-1", "fn main() {}", 1)];
    let embeddings = vec![embedding_json()];

    match chunk_storage.store_chunks(&chunks, &embeddings) {
        Ok(stored) => {
            assert_eq!(stored, 1);
        }
        Err(_) => {
            // sqlite-vec not available, skip this part
        }
    }

    let info = chunk_storage.get_indexed_file("/test/file.rs").unwrap();
    assert!(info.is_none());

    chunk_storage
        .update_indexed_file("/test/file.rs", "/test", 1234567890, 100)
        .unwrap();

    let info = chunk_storage.get_indexed_file("/test/file.rs").unwrap();
    assert!(info.is_some());
    let info = info.unwrap();
    assert_eq!(info.file_path, "/test/file.rs");
    assert_eq!(info.mtime, 1234567890);
    assert_eq!(info.size, 100);
}

#[test]
fn test_delete_file_chunks() {
    let temp_file = tempfile::NamedTempFile::new().unwrap();
    let db_path = temp_file.path().to_path_buf();

    let storage = SqliteStorage::open(db_path.to_str().unwrap()).unwrap();
    storage.migrate().unwrap();
    let _ = create_vector_tables(storage.connection());

    let chunk_storage = ChunkStorage::new(storage.connection());

    let chunks = vec![
        chunk("test-1", "fn main() {}", 1),
        chunk("test-2", "fn helper() {}", 3),
    ];
    let embeddings = vec![embedding_json(), embedding_json()];

    match chunk_storage.store_chunks(&chunks, &embeddings) {
        Ok(_) => {
            let deleted = chunk_storage.delete_file_chunks("/test/file.rs").unwrap();
            assert_eq!(deleted, 2);
        }
        Err(_) => {
            // sqlite-vec not available, skip this part
        }
    }
}

#[test]
fn test_store_chunks_empty() {
    let storage = SqliteStorage::open_in_memory().unwrap();
    storage.migrate().unwrap();
    let chunk_storage = ChunkStorage::new(storage.connection());
    let none: Vec<CodeChunk> = Vec::new();
    let no_embeddings: Vec<String> = Vec::new();
    assert_eq!(chunk_storage.store_chunks(&none, &no_embeddings).unwrap(), 0);
}

#[test]
fn test_store_chunk_and_list_files() {
    let storage = SqliteStorage::open_in_memory().unwrap();
    storage.migrate().unwrap();
    let chunk_storage = ChunkStorage::new(storage.connection());
    chunk_storage.store_chunk(&chunk("c1", "fn a() {}", 1)).unwrap();
    let n: i64 = storage
        .connection()
        .query_row("SELECT COUNT(*) FROM code_chunks WHERE file_path = '/test/file.rs'", [], |r| r.get(0))
        .unwrap();
    assert_eq!(n, 1);

    chunk_storage.update_indexed_file("/test/a.rs", "/test", 5, 6).unwrap();
    chunk_storage.update_indexed_file("/test/b.rs", "/test", 7, 8).unwrap();
    chunk_storage.update_indexed_file("/other/c.rs", "/other", 9, 10).unwrap();
    let mut files = chunk_storage.list_indexed_files("/test").unwrap();
    files.sort();
    assert_eq!(files, vec!["/test/a.rs", "/test/b.rs"]);

    // Replacing a record keeps one per file.
    chunk_storage.update_indexed_file("/test/a.rs", "/test", 50, 60).unwrap();
    let info = chunk_storage.get_indexed_file("/test/a.rs").unwrap().unwrap();
    assert_eq!((info.mtime, info.size), (50, 60));
    assert_eq!(chunk_storage.list_indexed_files("/test").unwrap().len(), 2);
}

#[test]
fn test_large_mtime_stored_as_i64() {
    let storage = SqliteStorage::open_in_memory().unwrap();
    storage.migrate().unwrap();
    let chunk_storage = ChunkStorage::new(storage.connection());
    chunk_storage
        .update_indexed_file("/t/x.rs", "/t", u64::MAX, 1)
        .unwrap();
    let info = chunk_storage.get_indexed_file("/t/x.rs").unwrap().unwrap();
    assert_eq!(info.mtime, -1);
}
