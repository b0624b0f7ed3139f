//! An indexing pass over scanned files, taken one step at a time. The run
//! decides which files to index and writes chunks, embeddings and file
//! records to the database; the caller reads a file or computes an
//! embedding when the run asks for it, and hands the result back.
use super::chunker::{chunk_text, chunks_of_text, opt_str_view};
use super::storage::{
    file_record_row, indexed_file_of_row, read_indexed_file, ChunkStorage, IndexedFileInfo,
};
use crate::sql::SqlValue;
use super::{CodeChunk, IndexingCoordinator, IndexingStats, ScannedFile};
use crate::error::Result;
use vstd::prelude::*;

verus! {

broadcast use vstd::string::group_string_axioms;

/// Which files of the list a run indexes.
#[derive(Debug, Clone, Copy, PartialEq, Eq, Structural)]
pub enum IndexMode {
    /// The files of a scan: a file whose index record is as recent as the
    /// file is skipped, and a file with no chunks is left unrecorded.
    Scan,
    /// The files a diff found new or changed: each is indexed and recorded,
    /// also when it has no chunks.
    Changes,
}

/// What the run asks of its caller next.
#[derive(Debug, Clone)]
pub enum IndexAction {
    /// Read the file at `path` and hand its text to `file_read`.
    ReadFile { path: String },
    /// Compute the embedding of `text` and hand its JSON to `embedded`.
    Embed { text: String },
    /// The run is over; `stats` holds its counts.
    Done,
}

/// A scanned file is indexed given its record: when there is none, or the
/// file is newer (its modification time read as `as i64` reads it).
pub open spec fn wants_index(rec: Option<IndexedFileInfo>, f: ScannedFile) -> bool {
    match rec {
        Some(i) => i.mtime < f.mtime as i64,
        None => true,
    }
}

/// `rec` is what the index holds for `f`: no record, or a record read from
/// the indexed-files table under `f`'s path.
pub open spec fn record_of(rec: Option<IndexedFileInfo>, f: ScannedFile) -> bool {
    rec matches Some(i) ==> read_indexed_file(i) && i.file_path@ == f.path@
}

/// `rec`, the record read for `f` (none in `Changes` mode, where nothing is
/// read), lets `f` be indexed in `mode`: in `Scan` mode only when `f` is
/// newer than its record or has none.
pub open spec fn due(mode: IndexMode, rec: Option<IndexedFileInfo>, f: ScannedFile) -> bool {
    &&& record_of(rec, f)
    &&& mode == IndexMode::Scan ==> wants_index(rec, f)
    &&& mode == IndexMode::Changes ==> rec is None
}

/// Outcome `o` of file `f` follows from the record `rec` read for it: in
/// `Scan` mode the file is passed over exactly when its record is as recent
/// as the file; in `Changes` mode nothing is read and the file is recorded.
pub open spec fn decided(mode: IndexMode, rec: Option<IndexedFileInfo>, f: ScannedFile, o: FileOutcome) -> bool {
    &&& record_of(rec, f)
    &&& mode == IndexMode::Scan ==> (o == FileOutcome::Skipped <==> !wants_index(rec, f))
    &&& mode == IndexMode::Changes ==> rec is None && o is Indexed
}

/// `w`, the record row written for file `f` (if any), goes with outcome
/// `o`: a file recorded as indexed had its own path, repository,
/// modification time and size written, and no other file had a record
/// written.
pub open spec fn wrote(w: Option<Seq<SqlValue>>, f: ScannedFile, o: FileOutcome) -> bool {
    match w {
        Some(row) => o is Indexed && file_record_row(row, f.path@, f.repo_path@, f.mtime, f.size),
        None => !(o is Indexed),
    }
}

/// What became of a file that a run is past.
#[derive(Debug, Clone, Copy, PartialEq, Eq, Structural)]
pub enum FileOutcome {
    /// Passed over: its record was current.
    Skipped,
    /// Its text gave no chunks, and it was left unrecorded.
    NoChunks,
    /// Recorded with this many chunks stored.
    Indexed(usize),
}

/// How many of the outcomes are `Indexed`.
pub open spec fn count_indexed(o: Seq<FileOutcome>) -> nat
    decreases o.len(),
{
    if o.len() == 0 {
        0
    } else {
        count_indexed(o.drop_last()) + if o.last() is Indexed {
            1nat
        } else {
            0nat
        }
    }
}

/// The chunks stored over all the outcomes.
pub open spec fn sum_chunks(o: Seq<FileOutcome>) -> nat
    decreases o.len(),
{
    if o.len() == 0 {
        0
    } else {
        sum_chunks(o.drop_last()) + match o.last() {
            FileOutcome::Indexed(n) => n as nat,
            _ => 0nat,
        }
    }
}

/// A count that stops at `usize::MAX`.
pub open spec fn capped(n: nat) -> int {
    if n > usize::MAX {
        usize::MAX as int
    } else {
        n as int
    }
}

/// The text `content` of file `f` gives no chunks.
pub open spec fn no_chunks(content: Seq<char>, f: ScannedFile) -> bool {
    chunks_of_text(Seq::empty(), content, f.path@, f.repo_path@, opt_str_view(f.language))
}

#[derive(Debug, Clone, Copy, PartialEq, Eq, Structural)]
enum Phase {
    Next,
    ReadingFile,
    Embedding,
    Finished,
}

/// An indexing pass over a list of scanned files, in order.
pub struct IndexRun {
    mode: IndexMode,
    files: Vec<ScannedFile>,
    pos: usize,
    chunks: Vec<CodeChunk>,
    chunk_pos: usize,
    phase: Phase,
    stats: IndexingStats,
    outcomes: Ghost<Seq<FileOutcome>>,
    found: Ghost<Seq<Option<IndexedFileInfo>>>,
    written: Ghost<Seq<Option<Seq<SqlValue>>>>,
    current: Ghost<Option<IndexedFileInfo>>,
}

impl IndexRun {
    /// The run's mode.
    pub closed spec fn mode_of(&self) -> IndexMode {
        self.mode
    }

    /// The files the run goes over.
    pub closed spec fn files_of(&self) -> Seq<ScannedFile> {
        self.files@
    }

    /// How many files the run is past; the file at this position is the one
    /// being indexed, if any.
    pub closed spec fn position(&self) -> int {
        self.pos as int
    }

    /// The chunks of the file being indexed.
    pub closed spec fn chunks_of(&self) -> Seq<CodeChunk> {
        self.chunks@
    }

    /// How many chunks of the file being indexed are stored with their
    /// embeddings.
    pub closed spec fn chunk_position(&self) -> int {
        self.chunk_pos as int
    }

    /// The counts so far.
    pub closed spec fn stats_of(&self) -> IndexingStats {
        self.stats
    }

    /// What became of each file the run is past, in order.
    pub closed spec fn outcomes_of(&self) -> Seq<FileOutcome> {
        self.outcomes@
    }

    /// The record read for each file the run is past, in order (none in
    /// `Changes` mode).
    pub closed spec fn records_of(&self) -> Seq<Option<IndexedFileInfo>> {
        self.found@
    }

    /// The record row written for each file the run is past, in order, for
    /// the files it recorded.
    pub closed spec fn writes_of(&self) -> Seq<Option<Seq<SqlValue>>> {
        self.written@
    }

    /// The record read for the file being indexed.
    pub closed spec fn record_for_current(&self) -> Option<IndexedFileInfo> {
        self.current@
    }

    /// The run waits for the text of the file at `position()`.
    pub closed spec fn awaits_file(&self) -> bool {
        self.phase == Phase::ReadingFile
    }

    /// The run waits for the embedding of chunk `chunk_position()`.
    pub closed spec fn awaits_embedding(&self) -> bool {
        self.phase == Phase::Embedding
    }

    /// The run has not started.
    pub closed spec fn is_fresh(&self) -> bool {
        self.phase == Phase::Next && self.pos == 0
    }

    /// The run is over.
    pub closed spec fn is_finished(&self) -> bool {
        self.phase == Phase::Finished
    }

    /// The state of a run holds together: it is never past its files, it
    /// has indexed at most the files it is past, its counts are those of the
    /// outcomes of the files it is past, each outcome follows from the record
    /// read for its file, the file being indexed is due by its record, and
    /// while it waits for an embedding it waits for one of that file's
    /// chunks.
    pub closed spec fn wf(&self) -> bool {
        &&& self.stats.files_scanned == self.files@.len()
        &&& self.pos <= self.files@.len()
        &&& self.stats.files_indexed <= self.pos
        &&& self.phase == Phase::ReadingFile ==> self.pos < self.files@.len()
        &&& self.phase == Phase::Embedding ==> {
            &&& self.pos < self.files@.len()
            &&& self.chunk_pos < self.chunks@.len()
        }
        &&& self.phase == Phase::Finished ==> self.pos == self.files@.len()
        &&& self.outcomes@.len() == self.pos
        &&& self.stats.files_indexed == count_indexed(self.outcomes@)
        &&& self.stats.total_chunks == capped(sum_chunks(self.outcomes@))
        &&& self.found@.len() == self.pos
        &&& self.written@.len() == self.pos
        &&& forall|k: int|
            0 <= k < self.pos ==> wrote(#[trigger] self.written@[k], self.files@[k], self.outcomes@[k])
        &&& forall|k: int|
            0 <= k < self.pos ==> decided(
                self.mode,
                #[trigger] self.found@[k],
                self.files@[k],
                self.outcomes@[k],
            )
        &&& (self.phase == Phase::ReadingFile || self.phase == Phase::Embedding) ==> due(
            self.mode,
            self.current@,
            self.files@[self.pos as int],
        )
    }

    /// Where the run stands: how many files it is past, then how far into the
    /// current file (0 before its text is read, 1 once it is, 2 plus the
    /// number of chunks stored after that).
    pub closed spec fn progress(&self) -> (int, int) {
        (
            self.pos as int,
            match self.phase {
                Phase::Next => 0,
                Phase::ReadingFile => 1,
                Phase::Embedding => 2 + self.chunk_pos,
                Phase::Finished => 0,
            },
        )
    }

    /// A run over `files` in `mode`, not started: nothing indexed yet.
    pub fn new(mode: IndexMode, files: Vec<ScannedFile>) -> (r: IndexRun)
        ensures
            r.wf(),
            r.is_fresh(),
            r.mode_of() == mode,
            r.files_of() == files@,
            r.stats_of() == (IndexingStats { files_scanned: files@.len() as usize, files_indexed: 0, total_chunks: 0 }),
            r.outcomes_of() == Seq::<FileOutcome>::empty(),
            r.records_of() == Seq::<Option<IndexedFileInfo>>::empty(),
    {
        let n = files.len();
        IndexRun {
            mode,
            files,
            pos: 0,
            chunks: Vec::new(),
            chunk_pos: 0,
            phase: Phase::Next,
            stats: IndexingStats::start(n),
            outcomes: Ghost(Seq::empty()),
            found: Ghost(Seq::empty()),
            written: Ghost(Seq::empty()),
            current: Ghost(None),
        }
    }

    /// The counts so far.
    pub fn stats(&self) -> (r: IndexingStats)
        ensures
            r == self.stats_of(),
    {
        IndexingStats {
            files_scanned: self.stats.files_scanned,
            files_indexed: self.stats.files_indexed,
            total_chunks: self.stats.total_chunks,
        }
    }

    /// Whether the run waits for the text of a file.
    pub fn is_awaiting_file(&self) -> (r: bool)
        ensures
            r == self.awaits_file(),
    {
        self.phase == Phase::ReadingFile
    }

    /// Whether the run waits for the embedding of a chunk.
    pub fn is_awaiting_embedding(&self) -> (r: bool)
        ensures
            r == self.awaits_embedding(),
    {
        self.phase == Phase::Embedding
    }

    /// Goes to the next file to index from the current position: in `Scan`
    /// mode files whose record is current are passed over. The old chunks of
    /// the file chosen are deleted (a failure to delete is ignored) and its
    /// text is asked for; past the last file the run is over.
    fn advance(&mut self, storage: &ChunkStorage) -> (r: Result<IndexAction>)
        requires
            old(self).wf(),
            old(self).phase == Phase::Next,
        ensures
            r is Ok ==> final(self).wf(),
            final(self).mode == old(self).mode,
            final(self).files@ == old(self).files@,
            final(self).stats == old(self).stats,
            final(self).pos >= old(self).pos,
            r is Ok ==> final(self).outcomes@.take(old(self).pos as int) == old(self).outcomes@,
            r is Ok ==> final(self).found@.take(old(self).pos as int) == old(self).found@,
            r is Ok ==> final(self).written@.take(old(self).pos as int) == old(self).written@,
            r is Ok ==> forall|k: int|
                old(self).pos <= k < final(self).pos ==> #[trigger] final(self).outcomes@[k]
                    == FileOutcome::Skipped,
            old(self).pos == old(self).files@.len() ==> r matches Ok(IndexAction::Done),
            old(self).mode == IndexMode::Changes && old(self).pos < old(self).files@.len() ==> (
            r matches Ok(IndexAction::ReadFile { .. }) && final(self).pos == old(self).pos),
            match r {
                Ok(IndexAction::ReadFile { path }) => {
                    &&& final(self).phase == Phase::ReadingFile
                    &&& path@ == final(self).files@[final(self).pos as int].path@
                    &&& due(final(self).mode, final(self).current@, final(self).files@[final(self).pos as int])
                },
                Ok(IndexAction::Done) => final(self).phase == Phase::Finished,
                Ok(IndexAction::Embed { .. }) => false,
                Err(_) => true,
            },
    {
        assert(self.outcomes@.take(self.pos as int) =~= self.outcomes@);
        assert(self.found@.take(self.pos as int) =~= self.found@);
        assert(self.written@.take(self.pos as int) =~= self.written@);
        while self.pos < self.files.len()
            invariant
                self.wf(),
                self.phase == Phase::Next,
                self.mode == old(self).mode,
                self.files@ == old(self).files@,
                self.stats == old(self).stats,
                self.pos >= old(self).pos,
                self.mode == IndexMode::Changes ==> self.pos == old(self).pos,
                self.outcomes@.take(old(self).pos as int) == old(self).outcomes@,
                self.found@.take(old(self).pos as int) == old(self).found@,
                self.written@.take(old(self).pos as int) == old(self).written@,
                forall|k: int|
                    old(self).pos <= k < self.pos ==> #[trigger] self.outcomes@[k]
                        == FileOutcome::Skipped,
            decreases self.files@.len() - self.pos,
        {
            let i = self.pos;
            if self.mode == IndexMode::Scan {
                let existing = storage.get_indexed_file(self.files[i].path.as_str())?;
                let wanted = match &existing {
                    Some(info) => IndexingCoordinator::should_index(Some(info), &self.files[i]),
                    None => IndexingCoordinator::should_index(None, &self.files[i]),
                };
                if !wanted {
                    proof {
                        let f = self.files@[i as int];
                        assert(decided(self.mode, existing, f, FileOutcome::Skipped));
                        lemma_push_outcome(self.outcomes@, FileOutcome::Skipped);
                        assert(self.outcomes@.push(FileOutcome::Skipped).take(old(self).pos as int)
                            =~= self.outcomes@.take(old(self).pos as int));
                        assert(self.found@.push(existing).take(old(self).pos as int)
                            =~= self.found@.take(old(self).pos as int));
                        self.outcomes@ = self.outcomes@.push(FileOutcome::Skipped);
                        assert(self.written@.push(None).take(old(self).pos as int)
                            =~= self.written@.take(old(self).pos as int));
                        self.found@ = self.found@.push(existing);
                        self.written@ = self.written@.push(None);
                    }
                    self.pos = i + 1;
                    continue;
                }
                proof {
                    self.current@ = existing;
                }
            } else {
                proof {
                    self.current@ = None;
                }
            }
            let path = self.files[i].path.clone();
            let _ = storage.delete_file_chunks(path.as_str());
            self.phase = Phase::ReadingFile;
            return Ok(IndexAction::ReadFile { path });
        }
        self.phase = Phase::Finished;
        Ok(IndexAction::Done)
    }

    /// Starts the run: asks for the text of the first file to index (in
    /// `Changes` mode the first file, with no database read that could fail),
    /// or ends at once when there is none.
    pub fn start(&mut self, storage: &ChunkStorage) -> (r: Result<IndexAction>)
        requires
            old(self).wf(),
            old(self).is_fresh(),
        ensures
            r is Ok ==> final(self).wf(),
            final(self).mode_of() == old(self).mode_of(),
            final(self).files_of() == old(self).files_of(),
            final(self).stats_of() == old(self).stats_of(),
            old(self).files_of().len() == 0 ==> r matches Ok(IndexAction::Done),
            r is Ok ==> forall|k: int|
                0 <= k < final(self).position() ==> #[trigger] final(self).outcomes_of()[k]
                    == FileOutcome::Skipped,
            old(self).mode_of() == IndexMode::Changes && old(self).files_of().len() > 0 ==> (
            r matches Ok(IndexAction::ReadFile { .. }) && final(self).position() == 0),
            match r {
                Ok(IndexAction::ReadFile { path }) => {
                    &&& final(self).awaits_file()
                    &&& path@ == final(self).files_of()[final(self).position()].path@
                    &&& due(
                        final(self).mode_of(),
                        final(self).record_for_current(),
                        final(self).files_of()[final(self).position()],
                    )
                },
                Ok(IndexAction::Done) => final(self).is_finished(),
                Ok(IndexAction::Embed { .. }) => false,
                Err(_) => true,
            },
    {
        self.advance(storage)
    }

    /// Takes the text of the file asked for and chunks it (`chunk_text`).
    /// With chunks, the first is stored and its embedding asked for. With
    /// none, in `Scan` mode the file is passed over (so the run is over when
    /// it was the last file), and in `Changes` mode it is recorded and
    /// counted with no chunks; the run then goes on to the next file.
    pub fn file_read(&mut self, storage: &ChunkStorage, content: &str) -> (r: Result<IndexAction>)
        requires
            old(self).wf(),
            old(self).awaits_file(),
        ensures
            r is Ok ==> final(self).wf(),
            final(self).mode_of() == old(self).mode_of(),
            final(self).files_of() == old(self).files_of(),
            final(self).stats_of().files_scanned == old(self).stats_of().files_scanned,
            r is Ok ==> progress_after(old(self).progress(), final(self).progress()),
            old(self).mode_of() == IndexMode::Scan && old(self).position() + 1
                == old(self).files_of().len() && no_chunks(
                content@,
                old(self).files_of()[old(self).position()],
            ) ==> r matches Ok(IndexAction::Done),
            r is Ok ==> final(self).outcomes_of().take(old(self).position()) == old(self).outcomes_of(),
            r is Ok ==> final(self).records_of().take(old(self).position()) == old(self).records_of(),
            r is Ok ==> final(self).writes_of().take(old(self).position()) == old(self).writes_of(),
            r is Ok && no_chunks(content@, old(self).files_of()[old(self).position()])
                ==> final(self).outcomes_of()[old(self).position()] == if old(self).mode_of()
                == IndexMode::Scan {
                FileOutcome::NoChunks
            } else {
                FileOutcome::Indexed(0)
            },
            r is Ok ==> forall|k: int|
                old(self).position() < k < final(self).position() ==> #[trigger] final(self).outcomes_of()[k] == FileOutcome::Skipped,
            match r {
                Ok(IndexAction::ReadFile { path }) => {
                    &&& final(self).awaits_file()
                    &&& path@ == final(self).files_of()[final(self).position()].path@
                    &&& due(
                        final(self).mode_of(),
                        final(self).record_for_current(),
                        final(self).files_of()[final(self).position()],
                    )
                },
                Ok(IndexAction::Embed { text }) => {
                    let f = old(self).files_of()[old(self).position()];
                    &&& final(self).awaits_embedding()
                    &&& final(self).position() == old(self).position()
                    &&& final(self).chunk_position() == 0
                    &&& chunks_of_text(
                        final(self).chunks_of(),
                        content@,
                        f.path@,
                        f.repo_path@,
                        opt_str_view(f.language),
                    )
                    &&& text@ == final(self).chunks_of()[0].content@
                    &&& final(self).stats_of() == old(self).stats_of()
                },
                Ok(IndexAction::Done) => final(self).is_finished(),
                Err(_) => true,
            },
    {
        let i = self.pos;
        let chunks = chunk_text(
            content,
            self.files[i].path.as_str(),
            self.files[i].repo_path.as_str(),
            &self.files[i].language,
        );
        if chunks.len() == 0 {
            if self.mode == IndexMode::Changes {
                let (res, row) = storage.update_indexed_file_traced(
                    self.files[i].path.as_str(),
                    self.files[i].repo_path.as_str(),
                    self.files[i].mtime,
                    self.files[i].size,
                );
                res?;
                self.stats.record_indexed(0);
                proof {
                    lemma_push_outcome(self.outcomes@, FileOutcome::Indexed(0));
                    self.outcomes@ = self.outcomes@.push(FileOutcome::Indexed(0));
                    self.found@ = self.found@.push(self.current@);
                    self.written@ = self.written@.push(Some(row@[0].args));
                }
            } else {
                proof {
                    lemma_push_outcome(self.outcomes@, FileOutcome::NoChunks);
                    self.outcomes@ = self.outcomes@.push(FileOutcome::NoChunks);
                    self.found@ = self.found@.push(self.current@);
                    self.written@ = self.written@.push(None);
                }
            }
            self.pos = i + 1;
            self.phase = Phase::Next;
            return self.advance(storage);
        }
        storage.store_chunk(&chunks[0])?;
        let text = chunks[0].content.clone();
        self.chunks = chunks;
        self.chunk_pos = 0;
        self.phase = Phase::Embedding;
        Ok(IndexAction::Embed { text })
    }

    /// Takes the embedding asked for and stores it with its chunk. The next
    /// chunk is then stored and its embedding asked for; after the last
    /// chunk, the file is recorded (its path, repository, modification time
    /// and size) and counted with its chunks, and the run goes on to the
    /// next file.
    pub fn embedded(&mut self, storage: &ChunkStorage, embedding_json: &str) -> (r: Result<
        IndexAction,
    >)
        requires
            old(self).wf(),
            old(self).awaits_embedding(),
        ensures
            r is Ok ==> final(self).wf(),
            final(self).mode_of() == old(self).mode_of(),
            final(self).files_of() == old(self).files_of(),
            final(self).stats_of().files_scanned == old(self).stats_of().files_scanned,
            r is Ok ==> progress_after(old(self).progress(), final(self).progress()),
            r is Ok ==> final(self).outcomes_of().take(old(self).position()) == old(self).outcomes_of(),
            r is Ok ==> final(self).records_of().take(old(self).position()) == old(self).records_of(),
            r is Ok ==> final(self).writes_of().take(old(self).position()) == old(self).writes_of(),
            r is Ok && !(r matches Ok(IndexAction::Embed { .. })) ==> final(self).outcomes_of()[old(self).position()] == FileOutcome::Indexed(old(self).chunks_of().len() as usize),
            r is Ok ==> forall|k: int|
                old(self).position() < k < final(self).position() ==> #[trigger] final(self).outcomes_of()[k] == FileOutcome::Skipped,
            match r {
                Ok(IndexAction::Embed { text }) => {
                    &&& final(self).awaits_embedding()
                    &&& final(self).position() == old(self).position()
                    &&& final(self).chunks_of() == old(self).chunks_of()
                    &&& final(self).chunk_position() == old(self).chunk_position() + 1
                    &&& text@ == final(self).chunks_of()[final(self).chunk_position()].content@
                    &&& final(self).stats_of() == old(self).stats_of()
                },
                Ok(IndexAction::ReadFile { path }) => {
                    &&& final(self).awaits_file()
                    &&& final(self).position() > old(self).position()
                    &&& path@ == final(self).files_of()[final(self).position()].path@
                    &&& due(
                        final(self).mode_of(),
                        final(self).record_for_current(),
                        final(self).files_of()[final(self).position()],
                    )
                    &&& final(self).stats_of().files_indexed == old(self).stats_of().files_indexed + 1
                },
                Ok(IndexAction::Done) => {
                    &&& final(self).is_finished()
                    &&& final(self).stats_of().files_indexed == old(self).stats_of().files_indexed + 1
                },
                Err(_) => true,
            },
    {
        let k = self.chunk_pos;
        let n = self.chunks.len();
        storage.store_chunk_embedding(self.chunks[k].id.as_str(), embedding_json)?;
        let next = k + 1;
        if next < n {
            storage.store_chunk(&self.chunks[next])?;
            self.chunk_pos = next;
            return Ok(IndexAction::Embed { text: self.chunks[next].content.clone() });
        }
        let i = self.pos;
        let (res, row) = storage.update_indexed_file_traced(
            self.files[i].path.as_str(),
            self.files[i].repo_path.as_str(),
            self.files[i].mtime,
            self.files[i].size,
        );
        res?;
        self.stats.record_indexed(next);
        proof {
            lemma_push_outcome(self.outcomes@, FileOutcome::Indexed(next));
            self.outcomes@ = self.outcomes@.push(FileOutcome::Indexed(next));
            self.found@ = self.found@.push(self.current@);
            self.written@ = self.written@.push(Some(row@[0].args));
        }
        self.pos = i + 1;
        self.phase = Phase::Next;
        self.advance(storage)
    }
}

/// A finished run has gone over all its files and indexed at most as many
/// as were scanned.
pub proof fn lemma_finished_run(run: IndexRun)
    requires
        run.wf(),
        run.is_finished(),
    ensures
        run.position() == run.files_of().len(),
        run.stats_of().files_scanned == run.files_of().len(),
        run.stats_of().files_indexed <= run.stats_of().files_scanned,
{
}

proof fn lemma_push_outcome(o: Seq<FileOutcome>, x: FileOutcome)
    ensures
        count_indexed(o.push(x)) == count_indexed(o) + if x is Indexed {
            1nat
        } else {
            0nat
        },
        sum_chunks(o.push(x)) == sum_chunks(o) + match x {
            FileOutcome::Indexed(n) => n as nat,
            _ => 0nat,
        },
        forall|k: int| 0 <= k < o.len() ==> #[trigger] o.push(x)[k] == o[k],
        o.push(x).take(o.len() as int) == o,
{
    assert(o.push(x).drop_last() =~= o);
    assert(o.push(x).take(o.len() as int) =~= o);
}

/// What a run records of the files it is past: it has counted as indexed
/// exactly the files recorded with their chunks, its chunk total is the sum
/// of the chunks stored for them (stopping at `usize::MAX`), what became of
/// each file follows from the record read for it (in a scan a file is passed
/// over exactly when its record is as recent as the file), and each file
/// counted as indexed, and only such a file, had its own path, repository,
/// modification time and size written as its record.
pub proof fn lemma_run_accounts(run: IndexRun)
    requires
        run.wf(),
    ensures
        run.outcomes_of().len() == run.position(),
        run.records_of().len() == run.position(),
        run.writes_of().len() == run.position(),
        run.stats_of().files_indexed == count_indexed(run.outcomes_of()),
        run.stats_of().total_chunks == capped(sum_chunks(run.outcomes_of())),
        forall|k: int|
            0 <= k < run.position() ==> decided(
                run.mode_of(),
                #[trigger] run.records_of()[k],
                run.files_of()[k],
                run.outcomes_of()[k],
            ),
        forall|k: int|
            0 <= k < run.position() ==> wrote(
                #[trigger] run.writes_of()[k],
                run.files_of()[k],
                run.outcomes_of()[k],
            ),
{
}

/// A scan in which every file's record is as recent as the file (nothing
/// changed since the last run) indexes nothing: every file is passed over,
/// and no file and no chunk is counted.
pub proof fn lemma_unchanged_scan(run: IndexRun)
    requires
        run.wf(),
        run.mode_of() == IndexMode::Scan,
        forall|k: int|
            0 <= k < run.position() ==> (#[trigger] run.records_of()[k] matches Some(i) && i.mtime
                >= run.files_of()[k].mtime as i64),
    ensures
        forall|k: int| 0 <= k < run.position() ==> #[trigger] run.outcomes_of()[k] == FileOutcome::Skipped,
        run.stats_of().files_indexed == 0,
        run.stats_of().total_chunks == 0,
{
    assert forall|k: int| 0 <= k < run.position() implies #[trigger] run.outcomes_of()[k]
        == FileOutcome::Skipped by {
        assert(decided(run.mode_of(), run.records_of()[k], run.files_of()[k], run.outcomes_of()[k]));
    }
    lemma_all_skipped(run.outcomes_of());
}

/// A file that one run recorded is passed over by a later scan when it has
/// not changed: where the record the scan reads for it is read from the row
/// the first run wrote, and the file has the modification time it had then.
pub proof fn lemma_recorded_file_skipped(first: IndexRun, k: int, later: IndexRun, j: int)
    requires
        first.wf(),
        later.wf(),
        later.mode_of() == IndexMode::Scan,
        0 <= k < first.position(),
        0 <= j < later.position(),
        first.writes_of()[k] is Some,
        later.records_of()[j] is Some,
        indexed_file_of_row(first.writes_of()[k]->0, later.records_of()[j]->0),
        later.files_of()[j].mtime == first.files_of()[k].mtime,
    ensures
        later.outcomes_of()[j] == FileOutcome::Skipped,
{
    assert(wrote(first.writes_of()[k], first.files_of()[k], first.outcomes_of()[k]));
    assert(decided(later.mode_of(), later.records_of()[j], later.files_of()[j], later.outcomes_of()[j]));
}

proof fn lemma_all_skipped(o: Seq<FileOutcome>)
    requires
        forall|k: int| 0 <= k < o.len() ==> #[trigger] o[k] == FileOutcome::Skipped,
    ensures
        count_indexed(o) == 0,
        sum_chunks(o) == 0,
    decreases o.len(),
{
    if o.len() > 0 {
        assert(o.last() == FileOutcome::Skipped);
        lemma_all_skipped(o.drop_last());
    }
}

/// `after` comes after `before`: further along the files, or on the same
/// file further into it.
pub open spec fn progress_after(before: (int, int), after: (int, int)) -> bool {
    before.0 < after.0 || (before.0 == after.0 && before.1 < after.1)
}

} // verus!
