//! The SQLite-backed `Storage`.
use crate::error::Result;
use crate::sql::{open_connection, open_memory_connection, pragma_update};
use vstd::prelude::*;

verus! {

/// A SQLite database, on disk or in memory.
pub struct SqliteStorage {
    conn: rusqlite::Connection,
}

impl SqliteStorage {
    /// The connection the database is reached through.
    pub closed spec fn db(&self) -> &rusqlite::Connection {
        &self.conn
    }

    /// Opens or creates the database file at `path` (whose directory must
    /// exist) in write-ahead-log mode, with foreign keys on and normal
    /// synchronisation.
    pub fn open(path: &str) -> Result<Self> {
        let conn = open_connection(path)?;
        pragma_update(&conn, "journal_mode", "wal")?;
        pragma_update(&conn, "foreign_keys", "ON")?;
        pragma_update(&conn, "synchronous", "NORMAL")?;
        Ok(SqliteStorage { conn })
    }

    /// Opens a fresh in-memory database with foreign keys on.
    pub fn open_in_memory() -> Result<Self> {
        let conn = open_memory_connection()?;
        pragma_update(&conn, "foreign_keys", "ON")?;
        Ok(SqliteStorage { conn })
    }
}

impl super::Storage for SqliteStorage {
    fn connection(&self) -> (r: &rusqlite::Connection)
        ensures
            r == self.db(),
    {
        &self.conn
    }

    fn migrate(&self) -> Result<()> {
        super::schema::run_migrations(&self.conn)
    }
}

} // verus!
