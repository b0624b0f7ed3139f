//! Keeping the code index in step with the files on disk.
pub mod handler;
