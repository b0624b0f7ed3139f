//! The SQLite database behind lessons, checkpoints and the code index.
use crate::error::Result;
use vstd::prelude::*;

pub mod schema;
pub mod sqlite;

verus! {

/// A database the library's stores read and write through. It can move
/// between threads, though not be shared by them: a SQLite connection is not
/// `Sync`.
pub trait Storage: Send {
    /// The connection to run statements on.
    fn connection(&self) -> &rusqlite::Connection;

    /// Brings the schema up to date.
    fn migrate(&self) -> Result<()>;
}

} // verus!
