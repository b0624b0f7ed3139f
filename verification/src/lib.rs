use vstd::prelude::*;

pub mod checkpoints;
pub mod clock;
pub mod config;
pub mod error;
pub mod http;
pub mod ids;
pub mod indexing;
pub mod json;
pub mod lessons;
pub mod sql;
pub mod storage;
pub mod text;
pub mod watcher;

verus! {

} // verus!
