use amp_rs::lessons::storage::LessonStorage;
use amp_rs::lessons::{severity_filter, severity_or_info, Severity};
use amp_rs::storage::{sqlite::SqliteStorage, Storage};
use std::str::FromStr;

fn setup() -> SqliteStorage {
    let storage = SqliteStorage::open_in_memory().unwrap();
    storage.migrate().unwrap();
    storage
}

#[test]
fn test_add_lesson() {
    let storage = setup();
    let ls = LessonStorage::new(storage.connection());
    let lesson = ls
        .add("Test", "Content", &["rust".into()], &Severity::Info)
        .unwrap();
    assert_eq!(lesson.title, "Test");
    assert_eq!(lesson.tags, vec!["rust"]);
}

#[test]
fn test_get_lesson() {
    let storage = setup();
    let ls = LessonStorage::new(storage.connection());
    let lesson = ls.add("Test", "Content", &[], &Severity::Warning).unwrap();
    let found = ls.get(&lesson.id).unwrap();
    assert!(found.is_some());
    assert_eq!(found.unwrap().title, "Test");
}

#[test]
fn test_get_nonexistent() {
    let storage = setup();
    let ls = LessonStorage::new(storage.connection());
    let found = ls.get("nonexistent-id").unwrap();
    assert!(found.is_none());
}

#[test]
fn test_list_lessons() {
    let storage = setup();
    let ls = LessonStorage::new(storage.connection());
    ls.add("A", "Content A", &[], &Severity::Info).unwrap();
    ls.add("B", "Content B", &[], &Severity::Critical).unwrap();
    let all = ls.list(None, 50).unwrap();
    assert_eq!(all.len(), 2);
}

#[test]
fn test_list_filter_severity() {
    let storage = setup();
    let ls = LessonStorage::new(storage.connection());
    ls.add("A", "Content A", &[], &Severity::Info).unwrap();
    ls.add("B", "Content B", &[], &Severity::Critical).unwrap();
    ls.add("C", "Content C", &[], &Severity::Warning).unwrap();

    let critical = ls.list(Some(&Severity::Critical), 50).unwrap();
    assert_eq!(critical.len(), 1);
    assert_eq!(critical[0].title, "B");

    let info = ls.list(Some(&Severity::Info), 50).unwrap();
    assert_eq!(info.len(), 1);
    assert_eq!(info[0].title, "A");
}

#[test]
fn test_count() {
    let storage = setup();
    let ls = LessonStorage::new(storage.connection());
    ls.add("A", "Content A", &[], &Severity::Info).unwrap();
    ls.add("B", "Content B", &[], &Severity::Critical).unwrap();
    assert_eq!(ls.count().unwrap(), 2);
}

#[test]
fn test_count_by_severity() {
    let storage = setup();
    let ls = LessonStorage::new(storage.connection());
    ls.add("A", "Content A", &[], &Severity::Info).unwrap();
    ls.add("B", "Content B", &[], &Severity::Critical).unwrap();
    ls.add("C", "Content C", &[], &Severity::Warning).unwrap();

    assert_eq!(ls.count_by_severity(&Severity::Critical).unwrap(), 1);
    assert_eq!(ls.count_by_severity(&Severity::Info).unwrap(), 1);
    assert_eq!(ls.count_by_severity(&Severity::Warning).unwrap(), 1);
}

#[test]
fn test_delete_lesson() {
    let storage = setup();
    let ls = LessonStorage::new(storage.connection());
    let lesson = ls
        .add("Delete me", "Content", &[], &Severity::Info)
        .unwrap();
    assert!(ls.delete(&lesson.id).unwrap());
    assert!(ls.get(&lesson.id).unwrap().is_none());
}

#[test]
fn test_delete_nonexistent() {
    let storage = setup();
    let ls = LessonStorage::new(storage.connection());
    assert!(!ls.delete("nonexistent-id").unwrap());
}

#[test]
fn test_lesson_crud_operations() {
    let storage = setup();
    let ls = LessonStorage::new(storage.connection());

    let lesson = ls
        .add(
            "Rust Ownership",
            "Understanding move semantics",
            &["rust".into(), "memory".into()],
            &Severity::Critical,
        )
        .unwrap();

    assert_eq!(lesson.title, "Rust Ownership");
    assert_eq!(lesson.severity, Severity::Critical);
    assert_eq!(lesson.tags.len(), 2);

    let found = ls.get(&lesson.id).unwrap();
    assert!(found.is_some());
    let found = found.unwrap();
    assert_eq!(found.id, lesson.id);
    assert_eq!(found.content, "Understanding move semantics");

    assert!(ls.delete(&lesson.id).unwrap());
    assert!(ls.get(&lesson.id).unwrap().is_none());
}

#[test]
fn test_lesson_list_and_filter() {
    let storage = setup();
    let ls = LessonStorage::new(storage.connection());

    ls.add("Critical Lesson", "Content 1", &[], &Severity::Critical)
        .unwrap();
    ls.add("Warning Lesson", "Content 2", &[], &Severity::Warning)
        .unwrap();
    ls.add("Info Lesson 1", "Content 3", &[], &Severity::Info)
        .unwrap();
    ls.add("Info Lesson 2", "Content 4", &[], &Severity::Info)
        .unwrap();

    let all = ls.list(None, 100).unwrap();
    assert_eq!(all.len(), 4);

    let critical = ls.list(Some(&Severity::Critical), 100).unwrap();
    assert_eq!(critical.len(), 1);
    assert_eq!(critical[0].title, "Critical Lesson");

    let warnings = ls.list(Some(&Severity::Warning), 100).unwrap();
    assert_eq!(warnings.len(), 1);

    let info_lessons = ls.list(Some(&Severity::Info), 100).unwrap();
    assert_eq!(info_lessons.len(), 2);

    let limited = ls.list(None, 2).unwrap();
    assert_eq!(limited.len(), 2);
}

#[test]
fn test_lesson_count() {
    let storage = setup();
    let ls = LessonStorage::new(storage.connection());

    assert_eq!(ls.count().unwrap(), 0);

    ls.add("First", "Content 1", &[], &Severity::Info).unwrap();
    assert_eq!(ls.count().unwrap(), 1);

    ls.add("Second", "Content 2", &[], &Severity::Critical)
        .unwrap();
    assert_eq!(ls.count().unwrap(), 2);

    assert_eq!(ls.count_by_severity(&Severity::Info).unwrap(), 1);
    assert_eq!(ls.count_by_severity(&Severity::Critical).unwrap(), 1);
    assert_eq!(ls.count_by_severity(&Severity::Warning).unwrap(), 0);
}

#[test]
fn test_lesson_tags() {
    let storage = setup();
    let ls = LessonStorage::new(storage.connection());

    let tags: Vec<String> = vec!["rust".into(), "performance".into(), "async".into()];
    let lesson = ls
        .add(
            "Async Rust",
            "Making fast concurrent code",
            &tags,
            &Severity::Warning,
        )
        .unwrap();

    let found = ls.get(&lesson.id).unwrap().unwrap();
    assert_eq!(found.tags, tags);
}

#[test]
fn test_lesson_timestamps() {
    let storage = setup();
    let ls = LessonStorage::new(storage.connection());

    let lesson = ls.add("Test", "Content", &[], &Severity::Info).unwrap();

    assert!(lesson.created_at <= lesson.updated_at);
    assert!(lesson.created_at.timestamp() > 0);
}

#[test]
fn test_lesson_severity_parsing() {
    assert_eq!(Severity::from_str("critical").unwrap(), Severity::Critical);
    assert_eq!(Severity::from_str("warning").unwrap(), Severity::Warning);
    assert_eq!(Severity::from_str("info").unwrap(), Severity::Info);
    assert_eq!(Severity::from_str("CRITICAL").unwrap(), Severity::Critical);

    assert!(Severity::from_str("invalid").is_err());
}

#[test]
fn test_lesson_severity_display() {
    assert_eq!(Severity::Critical.to_string(), "critical");
    assert_eq!(Severity::Warning.to_string(), "warning");
    assert_eq!(Severity::Info.to_string(), "info");
}

#[test]
fn test_severity_roundtrip_and_errors() {
    for s in [Severity::Critical, Severity::Warning, Severity::Info] {
        assert_eq!(Severity::parse(&s.to_string()).unwrap(), s);
    }
    assert_eq!(Severity::parse("WaRnInG").unwrap(), Severity::Warning);
    assert_eq!(Severity::parse("bogus").unwrap_err(), "Invalid severity: bogus");
    assert!(Severity::parse(" info").is_err());
    assert!(Severity::parse("").is_err());
}

#[test]
fn test_severity_tool_arguments() {
    assert_eq!(severity_or_info(None).unwrap(), Severity::Info);
    assert_eq!(severity_or_info(Some("Critical")).unwrap(), Severity::Critical);
    assert_eq!(
        severity_or_info(Some("urgent")).unwrap_err(),
        "Invalid severity: Invalid severity: urgent"
    );
    assert_eq!(severity_filter(None).unwrap(), None);
    assert_eq!(severity_filter(Some("info")).unwrap(), Some(Severity::Info));
    assert!(severity_filter(Some("x")).is_err());
}

#[test]
fn test_lesson_list_newest_first() {
    let storage = setup();
    let ls = LessonStorage::new(storage.connection());
    let conn = storage.connection();
    conn.execute(
        "INSERT INTO lessons (id, title, content, tags, severity, created_at, updated_at)
         VALUES ('a', 'Old', 'c', '[]', 'info', '2020-01-01T00:00:00+00:00', '2020-01-01T00:00:00+00:00')",
        [],
    )
    .unwrap();
    conn.execute(
        "INSERT INTO lessons (id, title, content, tags, severity, created_at, updated_at)
         VALUES ('b', 'New', 'c', 'not json', 'loud', '2024-01-01T00:00:00+00:00', '2024-01-01T00:00:00+00:00')",
        [],
    )
    .unwrap();
    let all = ls.list(None, 10).unwrap();
    assert_eq!(all.len(), 2);
    assert_eq!(all[0].title, "New");
    // Tags that are not JSON read as none, an unknown severity as info.
    assert!(all[0].tags.is_empty());
    assert_eq!(all[0].severity, Severity::Info);
    assert_eq!(all[1].title, "Old");
    assert_eq!(all[1].created_at.timestamp(), 1577836800);
}

#[test]
fn test_search_without_vector_extension() {
    let storage = setup();
    let ls = LessonStorage::new(storage.connection());
    let query: Vec<u8> = vec![0u8; 16];
    assert!(ls.search_by_embedding(&query, 5).is_err());
}
