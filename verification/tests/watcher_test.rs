use amp_rs::indexing::run::{IndexAction, IndexMode, IndexRun};
use amp_rs::indexing::scanner::scan_entry;
use amp_rs::indexing::storage::ChunkStorage;
use amp_rs::indexing::ScannedFile;
use amp_rs::storage::sqlite::SqliteStorage;
use amp_rs::storage::Storage;
use amp_rs::indexing::storage::IndexedFileInfo;
use amp_rs::watcher::handler::{
    classify_file, deleted_paths, diff_from, diff_index, forget_deleted_files, full_reindex,
    FileChange,
};
use tempfile::tempdir;

fn file(path: &str, repo: &str, mtime: u64) -> ScannedFile {
    scan_entry(path, repo, 10, mtime).unwrap()
}

#[test]
fn test_diff_index_detects_deleted_files() {
    let temp_db = tempfile::NamedTempFile::new().unwrap();
    let db_path = temp_db.path().to_path_buf();
    let storage = SqliteStorage::open(db_path.to_str().unwrap()).unwrap();
    storage.migrate().unwrap();

    let temp_src = tempdir().unwrap();
    let test_file_path = temp_src.path().join("deleted.rs");
    let test_file_str = test_file_path.to_string_lossy().to_string();
    let repo = temp_src.path().to_string_lossy().to_string();

    let chunk_storage = ChunkStorage::new(storage.connection());
    chunk_storage
        .update_indexed_file(&test_file_str, &repo, 1000, 10)
        .unwrap();

    // The directory is empty on disk, so its scan finds nothing.
    let scanned: Vec<ScannedFile> = Vec::new();
    let result = diff_index(storage.connection(), &repo, &scanned).unwrap();

    assert_eq!(result.new_files.len(), 0);
    assert_eq!(result.changed_files.len(), 0);
    assert_eq!(result.deleted_files.len(), 1);
    assert_eq!(result.deleted_files[0], test_file_str);
}

#[test]
fn test_diff_index_empty_repo() {
    let temp_db = tempfile::NamedTempFile::new().unwrap();
    let db_path = temp_db.path().to_path_buf();
    let storage = SqliteStorage::open(db_path.to_str().unwrap()).unwrap();
    storage.migrate().unwrap();

    let temp_src = tempdir().unwrap();
    let repo = temp_src.path().to_string_lossy().to_string();

    let scanned: Vec<ScannedFile> = Vec::new();
    let result = diff_index(storage.connection(), &repo, &scanned).unwrap();

    assert_eq!(result.new_files.len(), 0);
    assert_eq!(result.changed_files.len(), 0);
    assert_eq!(result.deleted_files.len(), 0);
}

#[test]
fn test_diff_index_classifies_files() {
    let storage = SqliteStorage::open_in_memory().unwrap();
    storage.migrate().unwrap();
    let cs = ChunkStorage::new(storage.connection());
    cs.update_indexed_file("/r/same.rs", "/r", 100, 10).unwrap();
    cs.update_indexed_file("/r/newer.rs", "/r", 100, 10).unwrap();
    cs.update_indexed_file("/r/gone.rs", "/r", 100, 10).unwrap();
    let scanned = vec![
        file("/r/fresh.rs", "/r", 5),
        file("/r/same.rs", "/r", 100),
        file("/r/newer.rs", "/r", 101),
    ];
    let d = diff_index(storage.connection(), "/r", &scanned).unwrap();
    let new: Vec<&str> = d.new_files.iter().map(|f| f.path.as_str()).collect();
    let changed: Vec<&str> = d.changed_files.iter().map(|f| f.path.as_str()).collect();
    assert_eq!(new, vec!["/r/fresh.rs"]);
    assert_eq!(changed, vec!["/r/newer.rs"]);
    assert_eq!(d.deleted_files, vec!["/r/gone.rs".to_string()]);

    let again = d.files_to_index();
    let paths: Vec<&str> = again.iter().map(|f| f.path.as_str()).collect();
    assert_eq!(paths, vec!["/r/fresh.rs", "/r/newer.rs"]);
}

#[test]
fn test_classify_file() {
    let f = file("/r/a.rs", "/r", 50);
    assert_eq!(classify_file(&f, &None), FileChange::New);
    let storage = SqliteStorage::open_in_memory().unwrap();
    storage.migrate().unwrap();
    let cs = ChunkStorage::new(storage.connection());
    cs.update_indexed_file("/r/a.rs", "/r", 50, 10).unwrap();
    let rec = cs.get_indexed_file("/r/a.rs").unwrap();
    assert_eq!(classify_file(&f, &rec), FileChange::Unchanged);
    let later = file("/r/a.rs", "/r", 51);
    assert_eq!(classify_file(&later, &rec), FileChange::Changed);
}

#[test]
fn test_deleted_paths_keeps_order() {
    let indexed = vec!["/r/c.rs".to_string(), "/r/a.rs".to_string(), "/r/b.rs".to_string()];
    let scanned = vec![file("/r/a.rs", "/r", 1)];
    assert_eq!(deleted_paths(&indexed, &scanned), vec!["/r/c.rs", "/r/b.rs"]);
}

#[test]
fn test_full_reindex_clears_repo() {
    let storage = SqliteStorage::open_in_memory().unwrap();
    storage.migrate().unwrap();
    let cs = ChunkStorage::new(storage.connection());
    cs.update_indexed_file("/r/a.rs", "/r", 1, 1).unwrap();
    cs.update_indexed_file("/o/b.rs", "/o", 1, 1).unwrap();
    let scanned = vec![file("/r/a.rs", "/r", 1), file("/r/z.rs", "/r", 1)];
    assert_eq!(full_reindex(storage.connection(), "/r", &scanned).unwrap(), 2);
    assert!(cs.list_indexed_files("/r").unwrap().is_empty());
    assert_eq!(cs.list_indexed_files("/o").unwrap().len(), 1);
    // Nothing to forget passes quietly.
    forget_deleted_files(storage.connection(), &vec!["/r/a.rs".to_string()]);
}

fn drive(run: &mut IndexRun, cs: &ChunkStorage, texts: &[(&str, &str)], asked: &mut Vec<String>) -> Result<(), String> {
    let mut action = run.start(cs).map_err(|e| e.message())?;
    loop {
        match action {
            IndexAction::ReadFile { path } => {
                asked.push(path.clone());
                let text = texts.iter().find(|(p, _)| *p == path).map(|(_, t)| *t).unwrap_or("");
                assert!(run.is_awaiting_file());
                action = run.file_read(cs, text).map_err(|e| e.message())?;
            }
            IndexAction::Embed { text } => {
                assert!(run.is_awaiting_embedding());
                asked.push(format!("embed:{}", text.lines().count()));
                action = run.embedded(cs, "[0.5]").map_err(|e| e.message())?;
            }
            IndexAction::Done => return Ok(()),
        }
    }
}

#[test]
fn test_index_run_scan_mode() {
    let storage = SqliteStorage::open_in_memory().unwrap();
    storage.migrate().unwrap();
    let cs = ChunkStorage::new(storage.connection());
    cs.update_indexed_file("/r/old.rs", "/r", 100, 10).unwrap();
    let files = vec![
        file("/r/old.rs", "/r", 100),
        file("/r/empty.rs", "/r", 1),
        file("/r/a.rs", "/r", 1),
    ];
    let mut run = IndexRun::new(IndexMode::Scan, files);
    let mut asked = Vec::new();
    let texts = [("/r/a.rs", "fn a() {\n    let x = 1;\n    let y = 2;\n    x + y\n}\n")];
    let r = drive(&mut run, &cs, &texts, &mut asked);
    // Without the vector extension, storing an embedding fails.
    assert!(r.is_err());
    assert_eq!(asked, vec!["/r/empty.rs".to_string(), "/r/a.rs".to_string(), "embed:5".to_string()]);
    let stats = run.stats();
    assert_eq!(stats.files_scanned, 3);
    assert_eq!(stats.files_indexed, 0);
}

#[test]
fn test_index_run_changes_mode_records_empty_files() {
    let storage = SqliteStorage::open_in_memory().unwrap();
    storage.migrate().unwrap();
    let cs = ChunkStorage::new(storage.connection());
    let files = vec![file("/r/blank.rs", "/r", 7), file("/r/also.rs", "/r", 8)];
    let mut run = IndexRun::new(IndexMode::Changes, files);
    let mut asked = Vec::new();
    let texts = [("/r/blank.rs", "\n   \n"), ("/r/also.rs", "")];
    drive(&mut run, &cs, &texts, &mut asked).unwrap();
    assert_eq!(asked, vec!["/r/blank.rs".to_string(), "/r/also.rs".to_string()]);
    let stats = run.stats();
    assert_eq!((stats.files_scanned, stats.files_indexed, stats.total_chunks), (2, 2, 0));
    let rec = cs.get_indexed_file("/r/blank.rs").unwrap().unwrap();
    assert_eq!(rec.mtime, 7);
}

#[test]
fn test_index_run_no_files() {
    let storage = SqliteStorage::open_in_memory().unwrap();
    storage.migrate().unwrap();
    let cs = ChunkStorage::new(storage.connection());
    let mut run = IndexRun::new(IndexMode::Scan, Vec::new());
    assert!(matches!(run.start(&cs).unwrap(), IndexAction::Done));
    assert_eq!(run.stats().files_indexed, 0);
}

#[test]
fn test_index_run_unchanged_rescan_indexes_nothing() {
    let storage = SqliteStorage::open_in_memory().unwrap();
    storage.migrate().unwrap();
    let cs = ChunkStorage::new(storage.connection());
    cs.update_indexed_file("/r/a.rs", "/r", 5, 10).unwrap();
    cs.update_indexed_file("/r/b.rs", "/r", 9, 10).unwrap();
    let files = vec![file("/r/a.rs", "/r", 5), file("/r/b.rs", "/r", 6)];
    let mut run = IndexRun::new(IndexMode::Scan, files);
    let mut asked = Vec::new();
    drive(&mut run, &cs, &[], &mut asked).unwrap();
    assert!(asked.is_empty());
    let stats = run.stats();
    assert_eq!((stats.files_scanned, stats.files_indexed, stats.total_chunks), (2, 0, 0));
}

#[test]
fn test_diff_from_given_records() {
    let scanned = vec![file("/r/new.rs", "/r", 5), file("/r/changed.rs", "/r", 9), file("/r/same.rs", "/r", 4)];
    let rec = |p: &str, m: i64| Some(IndexedFileInfo { file_path: p.to_string(), repo_path: "/r".to_string(), mtime: m, size: 10 });
    let records = vec![None, rec("/r/changed.rs", 3), rec("/r/same.rs", 4)];
    let listed = vec!["/r/same.rs".to_string(), "/r/gone.rs".to_string()];
    let d = diff_from(&scanned, &records, &listed);
    let names = |v: &Vec<ScannedFile>| v.iter().map(|f| f.path.clone()).collect::<Vec<_>>();
    assert_eq!(names(&d.new_files), vec!["/r/new.rs".to_string()]);
    assert_eq!(names(&d.changed_files), vec!["/r/changed.rs".to_string()]);
    assert_eq!(d.deleted_files, vec!["/r/gone.rs".to_string()]);
}

#[test]
fn test_recorded_files_skipped_by_later_scan() {
    let storage = SqliteStorage::open_in_memory().unwrap();
    storage.migrate().unwrap();
    let cs = ChunkStorage::new(storage.connection());
    let files = vec![file("/r/blank.rs", "/r", 7), file("/r/also.rs", "/r", 8)];
    let mut first = IndexRun::new(IndexMode::Changes, files.clone());
    let mut asked = Vec::new();
    drive(&mut first, &cs, &[("/r/blank.rs", ""), ("/r/also.rs", "")], &mut asked).unwrap();
    let rec = cs.get_indexed_file("/r/also.rs").unwrap().unwrap();
    assert_eq!((rec.repo_path.as_str(), rec.mtime, rec.size), ("/r", 8, 10));
    let mut later = IndexRun::new(IndexMode::Scan, files);
    let mut asked_later = Vec::new();
    drive(&mut later, &cs, &[], &mut asked_later).unwrap();
    assert!(asked_later.is_empty());
    assert_eq!(later.stats().files_indexed, 0);
}
