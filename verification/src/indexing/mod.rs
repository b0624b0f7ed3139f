//! Code indexing: the records that scanning and chunking produce, and the
//! decisions of the indexing pipeline (scan, chunk, embed, store).
use crate::indexing::chunker::opt_str_view;
use crate::indexing::storage::IndexedFileInfo;
use vstd::prelude::*;

pub mod chunker;
pub mod run;
pub mod scanner;
pub mod storage;

verus! {

/// A file discovered by the scanner.
#[derive(Debug, Clone)]
pub struct ScannedFile {
    pub path: String,
    pub repo_path: String,
    pub size: u64,
    pub mtime: u64,
    pub language: Option<String>,
}

/// A chunk of code extracted from a file.
#[derive(Debug, Clone)]
pub struct CodeChunk {
    pub id: String,
    pub file_path: String,
    pub repo_path: String,
    pub content: String,
    pub language: Option<String>,
    pub start_line: usize,
    pub end_line: usize,
    pub chunk_type: String,
}

/// The plain values of a scanned file.
pub open spec fn scanned_view(f: ScannedFile) -> (Seq<char>, Seq<char>, u64, u64, Option<Seq<char>>) {
    (f.path@, f.repo_path@, f.size, f.mtime, opt_str_view(f.language))
}

impl ScannedFile {
    /// A copy of the record.
    pub fn copy(&self) -> (r: ScannedFile)
        ensures
            scanned_view(r) == scanned_view(*self),
    {
        ScannedFile {
            path: self.path.clone(),
            repo_path: self.repo_path.clone(),
            size: self.size,
            mtime: self.mtime,
            language: match &self.language {
                Some(l) => Some(l.clone()),
                None => None,
            },
        }
    }
}

/// Orchestrates the indexing pipeline: scan, chunk, embed, store.
pub struct IndexingCoordinator;

/// Statistics from an indexing run.
#[derive(Debug, Clone)]
pub struct IndexingStats {
    pub files_scanned: usize,
    pub files_indexed: usize,
    pub total_chunks: usize,
}

impl IndexingCoordinator {
    /// Whether a scanned file has to be (re)indexed: when it was never
    /// indexed, or its modification time (read as `as i64` reads it) is later
    /// than the one recorded.
    pub fn should_index(existing: Option<&IndexedFileInfo>, file: &ScannedFile) -> (r: bool)
        ensures
            r == match existing {
                Some(info) => info.mtime < file.mtime as i64,
                None => true,
            },
    {
        match existing {
            Some(info) => {
                #[verifier::truncate]
                let m = file.mtime as i64;
                info.mtime < m
            },
            None => true,
        }
    }
}

impl IndexingStats {
    /// The statistics of a run over `files_scanned` scanned files, before any
    /// is indexed.
    pub fn start(files_scanned: usize) -> (r: IndexingStats)
        ensures
            r.files_scanned == files_scanned,
            r.files_indexed == 0,
            r.total_chunks == 0,
    {
        IndexingStats { files_scanned, files_indexed: 0, total_chunks: 0 }
    }

    /// Counts one more file indexed, with `stored` chunks (the chunk total
    /// stops at `usize::MAX`).
    pub fn record_indexed(&mut self, stored: usize)
        requires
            old(self).files_indexed < usize::MAX,
        ensures
            final(self).files_scanned == old(self).files_scanned,
            final(self).files_indexed == old(self).files_indexed + 1,
            final(self).total_chunks == if old(self).total_chunks + stored > usize::MAX {
                usize::MAX as int
            } else {
                old(self).total_chunks + stored
            },
    {
        self.files_indexed = self.files_indexed + 1;
        self.total_chunks = self.total_chunks.saturating_add(stored);
    }
}

} // verus!
