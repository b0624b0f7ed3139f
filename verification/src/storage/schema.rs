//! Creating and versioning the database schema.
use crate::error::Result;
use crate::sql::{execute_batch, query_rows, SqlValue};
use vstd::prelude::*;

verus! {

/// The schema version this library writes.
pub const SCHEMA_VERSION: i32 = 1;

/// The schema version recorded in the database, as read by the query
/// `SELECT COALESCE(MAX(version), 0) FROM schema_version`: the integer in the
/// first column of the first row when it fits an `i32`, else 0 (an empty or
/// failed query reads as 0 as well).
pub open spec fn spec_recorded_version(rows: Option<Seq<Vec<SqlValue>>>) -> i32 {
    match rows {
        Some(r) => if r.len() > 0 && r[0]@.len() > 0 {
            match r[0]@[0] {
                SqlValue::Integer(n) => if i32::MIN <= n <= i32::MAX {
                    n as i32
                } else {
                    0
                },
                _ => 0,
            }
        } else {
            0
        },
        None => 0,
    }
}

/// The recorded schema version from the rows of the version query, `None`
/// where the query failed.
pub fn recorded_version(rows: Option<&Vec<Vec<SqlValue>>>) -> (r: i32)
    ensures
        r == spec_recorded_version(
            match rows {
                Some(v) => Some(v@),
                None => None,
            },
        ),
{
    match rows {
        None => 0,
        Some(v) => {
            if v.len() == 0 || v[0].len() == 0 {
                return 0;
            }
            match &v[0][0] {
                SqlValue::Integer(n) => {
                    if *n >= i32::MIN as i64 && *n <= i32::MAX as i64 {
                        *n as i32
                    } else {
                        0
                    }
                },
                _ => 0,
            }
        },
    }
}

/// Whether the first schema version still has to be applied.
pub fn needs_v1(current_version: i32) -> (r: bool)
    ensures
        r == (current_version < 1),
{
    current_version < 1
}

/// Creates the version table, reads the recorded version, and applies the
/// first schema version when it is not recorded yet. What the database held
/// decides the outcome, so nothing is claimed of it.
pub fn run_migrations(conn: &rusqlite::Connection) -> Result<()> {
    execute_batch(
        conn,
        "CREATE TABLE IF NOT EXISTS schema_version (
            version INTEGER PRIMARY KEY,
            applied_at TEXT NOT NULL DEFAULT (datetime('now'))
        );",
    )?;
    let args: Vec<SqlValue> = Vec::new();
    let current_version = match query_rows(
        conn,
        "SELECT COALESCE(MAX(version), 0) FROM schema_version",
        &args,
        1,
    ) {
        Ok(rows) => recorded_version(Some(&rows)),
        Err(_) => recorded_version(None),
    };
    if needs_v1(current_version) {
        apply_v1(conn)?;
    }
    Ok(())
}

fn apply_v1(conn: &rusqlite::Connection) -> Result<()> {
    execute_batch(
        conn,
        "
        -- Lessons table
        CREATE TABLE IF NOT EXISTS lessons (
            id TEXT PRIMARY KEY,
            title TEXT NOT NULL,
            content TEXT NOT NULL,
            tags TEXT NOT NULL DEFAULT '[]',
            severity TEXT NOT NULL DEFAULT 'info',
            created_at TEXT NOT NULL DEFAULT (datetime('now')),
            updated_at TEXT NOT NULL DEFAULT (datetime('now'))
        );

        -- Checkpoints table
        CREATE TABLE IF NOT EXISTS checkpoints (
            id TEXT PRIMARY KEY,
            agent TEXT NOT NULL,
            working_on TEXT NOT NULL,
            state TEXT NOT NULL DEFAULT '{}',
            created_at TEXT NOT NULL DEFAULT (datetime('now'))
        );

        -- Code chunks table
        CREATE TABLE IF NOT EXISTS code_chunks (
            id TEXT PRIMARY KEY,
            file_path TEXT NOT NULL,
            repo_path TEXT NOT NULL,
            content TEXT NOT NULL,
            language TEXT,
            start_line INTEGER NOT NULL,
            end_line INTEGER NOT NULL,
            chunk_type TEXT NOT NULL DEFAULT 'code',
            created_at TEXT NOT NULL DEFAULT (datetime('now'))
        );

        -- Indexed files tracking
        CREATE TABLE IF NOT EXISTS indexed_files (
            file_path TEXT PRIMARY KEY,
            repo_path TEXT NOT NULL,
            mtime INTEGER NOT NULL,
            size INTEGER NOT NULL,
            indexed_at TEXT NOT NULL DEFAULT (datetime('now'))
        );

        -- Indexes
        CREATE INDEX IF NOT EXISTS idx_lessons_severity ON lessons(severity);
        CREATE INDEX IF NOT EXISTS idx_checkpoints_agent ON checkpoints(agent);
        CREATE INDEX IF NOT EXISTS idx_checkpoints_created ON checkpoints(created_at);
        CREATE INDEX IF NOT EXISTS idx_code_chunks_file ON code_chunks(file_path);
        CREATE INDEX IF NOT EXISTS idx_code_chunks_repo ON code_chunks(repo_path);
        CREATE INDEX IF NOT EXISTS idx_indexed_files_repo ON indexed_files(repo_path);

        -- Record migration
        INSERT INTO schema_version (version) VALUES (1);
        ",
    )?;
    Ok(())
}

/// Creates the sqlite-vec tables for vector search, 384 dimensions each
/// (all-MiniLM-L6-v2); needs the sqlite-vec extension loaded.
pub fn create_vector_tables(conn: &rusqlite::Connection) -> Result<()> {
    execute_batch(
        conn,
        "
        CREATE VIRTUAL TABLE IF NOT EXISTS lesson_embeddings USING vec0(
            id TEXT PRIMARY KEY,
            embedding float[384]
        );

        CREATE VIRTUAL TABLE IF NOT EXISTS checkpoint_embeddings USING vec0(
            id TEXT PRIMARY KEY,
            embedding float[384]
        );

        CREATE VIRTUAL TABLE IF NOT EXISTS chunk_embeddings USING vec0(
            id TEXT PRIMARY KEY,
            embedding float[384]
        );
        ",
    )?;
    Ok(())
}

} // verus!
