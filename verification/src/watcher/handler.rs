//! Incremental re-indexing: which scanned files are new, which changed, and
//! which indexed files are gone.
use crate::error::{AmpError, Result};
use crate::indexing::storage::{
    indexed_file_cells, indexed_file_of_row, listed_under, paths_under, read_indexed_file,
    record_lookup_gives, repo_cleared, ChunkStorage, IndexedFileInfo, GET_INDEXED_FILE_SQL,
    LIST_INDEXED_FILES_SQL,
};
use crate::sql::{key_row, Call, Reply};
use crate::indexing::{scanned_view, ScannedFile};
use crate::json::strings_view;
use vstd::prelude::*;

verus! {

broadcast use vstd::string::group_string_axioms;

/// How a scanned file stands against the index.
#[derive(Debug, Clone, Copy, PartialEq, Eq, Structural)]
pub enum FileChange {
    New,
    Changed,
    Unchanged,
}

/// A file never indexed is new; one whose modification time is later than
/// the recorded one (read as `as u64` reads it) changed.
pub open spec fn spec_classify(mtime: u64, indexed: Option<i64>) -> FileChange {
    match indexed {
        Some(m) => if mtime > m as u64 {
            FileChange::Changed
        } else {
            FileChange::Unchanged
        },
        None => FileChange::New,
    }
}

/// The recorded modification time of an indexed file, if any.
pub open spec fn recorded_mtime(indexed: Option<IndexedFileInfo>) -> Option<i64> {
    match indexed {
        Some(i) => Some(i.mtime),
        None => None,
    }
}

/// How `file` stands against its index record.
pub fn classify_file(file: &ScannedFile, indexed: &Option<IndexedFileInfo>) -> (r: FileChange)
    ensures
        r == spec_classify(file.mtime, recorded_mtime(*indexed)),
{
    match indexed {
        Some(info) => {
            #[verifier::truncate]
            let m = info.mtime as u64;
            if file.mtime > m {
                FileChange::Changed
            } else {
                FileChange::Unchanged
            }
        },
        None => FileChange::New,
    }
}

/// The files among the first `k` scanned whose classification is `want`,
/// in order.
pub open spec fn files_with(
    scanned: Seq<ScannedFile>,
    kinds: Seq<FileChange>,
    want: FileChange,
    k: int,
) -> Seq<(Seq<char>, Seq<char>, u64, u64, Option<Seq<char>>)>
    decreases k,
{
    if k <= 0 {
        seq![]
    } else if kinds[k - 1] == want {
        files_with(scanned, kinds, want, k - 1).push(scanned_view(scanned[k - 1]))
    } else {
        files_with(scanned, kinds, want, k - 1)
    }
}

/// The paths of the scanned files.
pub open spec fn scanned_paths(scanned: Seq<ScannedFile>) -> Seq<Seq<char>> {
    scanned.map_values(|f: ScannedFile| f.path@)
}

/// The first `k` of `paths` that no scanned file has, in order.
pub open spec fn unscanned(paths: Seq<Seq<char>>, scanned: Seq<Seq<char>>, k: int) -> Seq<Seq<char>>
    decreases k,
{
    if k <= 0 {
        seq![]
    } else if scanned.contains(paths[k - 1]) {
        unscanned(paths, scanned, k - 1)
    } else {
        unscanned(paths, scanned, k - 1).push(paths[k - 1])
    }
}

/// The views of a list of scanned files.
pub open spec fn files_view(v: Seq<ScannedFile>) -> Seq<(Seq<char>, Seq<char>, u64, u64, Option<Seq<char>>)> {
    v.map_values(|f: ScannedFile| scanned_view(f))
}

/// Result of comparing a scan with the index.
#[derive(Debug)]
pub struct DiffResult {
    pub new_files: Vec<ScannedFile>,
    pub changed_files: Vec<ScannedFile>,
    pub deleted_files: Vec<String>,
}

impl DiffResult {
    /// The files to index again: the new files, then the changed ones.
    pub fn files_to_index(&self) -> (r: Vec<ScannedFile>)
        ensures
            files_view(r@) == files_view(self.new_files@) + files_view(self.changed_files@),
    {
        let mut out: Vec<ScannedFile> = Vec::new();
        let mut i: usize = 0;
        while i < self.new_files.len()
            invariant
                i <= self.new_files@.len(),
                files_view(out@) == files_view(self.new_files@).take(i as int),
            decreases self.new_files@.len() - i,
        {
            let ghost before = out@;
            let c = self.new_files[i].copy();
            out.push(c);
            assert(files_view(out@) =~= files_view(before).push(scanned_view(c)));
            assert(files_view(out@) =~= files_view(self.new_files@).take(i + 1));
            i = i + 1;
        }
        let mut j: usize = 0;
        while j < self.changed_files.len()
            invariant
                j <= self.changed_files@.len(),
                files_view(out@) == files_view(self.new_files@) + files_view(
                    self.changed_files@,
                ).take(j as int),
            decreases self.changed_files@.len() - j,
        {
            let ghost before = out@;
            let c = self.changed_files[j].copy();
            out.push(c);
            assert(files_view(out@) =~= files_view(before).push(scanned_view(c)));
            assert(files_view(out@) =~= files_view(self.new_files@) + files_view(
                self.changed_files@,
            ).take(j + 1));
            j = j + 1;
        }
        assert(files_view(self.changed_files@).take(self.changed_files@.len() as int)
            =~= files_view(self.changed_files@));
        out
    }
}

/// Deletes the chunks and embeddings of the files that are gone; a failure
/// to delete is passed over.
pub fn forget_deleted_files(conn: &rusqlite::Connection, deleted_files: &Vec<String>) {
    let storage = ChunkStorage::new(conn);
    let mut i: usize = 0;
    while i < deleted_files.len()
        invariant
            i <= deleted_files@.len(),
        decreases deleted_files@.len() - i,
    {
        let _ = storage.delete_file_chunks(deleted_files[i].as_str());
        i = i + 1;
    }
}

/// The indexed paths that no scanned file has, in order.
pub fn deleted_paths(indexed_paths: &Vec<String>, scanned: &Vec<ScannedFile>) -> (r: Vec<String>)
    ensures
        strings_view(r@) == unscanned(
            strings_view(indexed_paths@),
            scanned_paths(scanned@),
            indexed_paths@.len() as int,
        ),
{
    let ghost sp = scanned_paths(scanned@);
    let ghost ip = strings_view(indexed_paths@);
    let mut out: Vec<String> = Vec::new();
    let mut i: usize = 0;
    while i < indexed_paths.len()
        invariant
            i <= indexed_paths@.len(),
            sp == scanned_paths(scanned@),
            ip == strings_view(indexed_paths@),
            strings_view(out@) == unscanned(ip, sp, i as int),
        decreases indexed_paths@.len() - i,
    {
        let p = &indexed_paths[i];
        let mut found = false;
        let mut j: usize = 0;
        while j < scanned.len()
            invariant
                j <= scanned@.len(),
                sp == scanned_paths(scanned@),
                found == (exists|m: int| 0 <= m < j && sp[m] == p@),
            decreases scanned@.len() - j,
        {
            if crate::text::str_eq(scanned[j].path.as_str(), p.as_str()) {
                assert(sp[j as int] == p@);
                found = true;
            }
            proof {
                if !found {
                    assert forall|m: int| 0 <= m < j + 1 implies sp[m] != p@ by {
                        if m == j {
                            assert(sp[m] == scanned@[m].path@);
                        }
                    }
                }
            }
            j = j + 1;
        }
        proof {
            assert(ip[i as int] == p@);
            if found {
                let m = choose|m: int| 0 <= m < scanned@.len() && sp[m] == p@;
                assert(sp.contains(ip[i as int]));
            } else {
                assert(!sp.contains(ip[i as int]));
            }
        }
        if !found {
            let ghost before = out@;
            out.push(p.clone());
            assert(strings_view(out@) =~= strings_view(before).push(p@));
        }
        i = i + 1;
    }
    out
}

/// How each scanned file stands against the record given for it.
pub open spec fn kinds_of(scanned: Seq<ScannedFile>, records: Seq<Option<IndexedFileInfo>>) -> Seq<FileChange> {
    Seq::new(scanned.len(), |i: int| spec_classify(scanned[i].mtime, recorded_mtime(records[i])))
}

/// `d` compares `scanned` with the index: `records` holds the index record
/// of each scanned file (if any) and `listed` the indexed paths of the
/// repository. The new files and the changed files are the scanned files so
/// classified, in order, and the deleted files the listed paths that no
/// scanned file has, in order.
pub open spec fn is_diff(
    d: DiffResult,
    scanned: Seq<ScannedFile>,
    records: Seq<Option<IndexedFileInfo>>,
    listed: Seq<Seq<char>>,
) -> bool {
    let kinds = kinds_of(scanned, records);
    &&& files_view(d.new_files@) == files_with(scanned, kinds, FileChange::New, scanned.len() as int)
    &&& files_view(d.changed_files@) == files_with(
        scanned,
        kinds,
        FileChange::Changed,
        scanned.len() as int,
    )
    &&& strings_view(d.deleted_files@) == unscanned(listed, scanned_paths(scanned), listed.len() as int)
}

/// `records` holds, for each scanned file, what looking up its path in the
/// index gave: none, or a record read from the indexed-files table under
/// that path.
pub open spec fn looked_up(scanned: Seq<ScannedFile>, records: Seq<Option<IndexedFileInfo>>) -> bool {
    &&& records.len() == scanned.len()
    &&& forall|i: int|
        0 <= i < records.len() ==> (#[trigger] records[i] matches Some(f) ==> read_indexed_file(f)
            && f.file_path@ == scanned[i].path@)
}

/// `d` compares `scanned` with the index of repository `repo`: with the
/// records that looking up each scanned file's path gave, and paths listed
/// under `repo`.
pub open spec fn diff_of_index(d: DiffResult, scanned: Seq<ScannedFile>, repo: Seq<char>) -> bool {
    exists|records: Seq<Option<IndexedFileInfo>>, listed: Seq<Seq<char>>|
        #[trigger] is_diff(d, scanned, records, listed) && looked_up(scanned, records) && (forall|
            j: int,
        | 0 <= j < listed.len() ==> listed_under(#[trigger] listed[j], repo))
}

/// The comparison of a scan with the index, given the index record of each
/// scanned file (`records[i]` for `scanned[i]`) and the indexed paths of the
/// repository.
pub fn diff_from(
    scanned: &Vec<ScannedFile>,
    records: &Vec<Option<IndexedFileInfo>>,
    listed: &Vec<String>,
) -> (r: DiffResult)
    requires
        records@.len() == scanned@.len(),
    ensures
        is_diff(r, scanned@, records@, strings_view(listed@)),
{
    let ghost kinds = kinds_of(scanned@, records@);
    let mut new_files: Vec<ScannedFile> = Vec::new();
    let mut changed_files: Vec<ScannedFile> = Vec::new();
    let mut i: usize = 0;
    while i < scanned.len()
        invariant
            i <= scanned@.len(),
            records@.len() == scanned@.len(),
            kinds == kinds_of(scanned@, records@),
            files_view(new_files@) == files_with(scanned@, kinds, FileChange::New, i as int),
            files_view(changed_files@) == files_with(
                scanned@,
                kinds,
                FileChange::Changed,
                i as int,
            ),
        decreases scanned@.len() - i,
    {
        let file = &scanned[i];
        let kind = classify_file(file, &records[i]);
        assert(kinds[i as int] == kind);
        match kind {
            FileChange::New => {
                let ghost before = new_files@;
                new_files.push(file.copy());
                assert(files_view(new_files@) =~= files_view(before).push(scanned_view(*file)));
            },
            FileChange::Changed => {
                let ghost before = changed_files@;
                changed_files.push(file.copy());
                assert(files_view(changed_files@) =~= files_view(before).push(
                    scanned_view(*file),
                ));
            },
            FileChange::Unchanged => {},
        }
        i = i + 1;
    }
    let deleted_files = deleted_paths(listed, scanned);
    DiffResult { new_files, changed_files, deleted_files }
}

/// `log` is what comparing `scanned` with the index of repository `repo`
/// handed SQLite: for each scanned file in order, the query for its record,
/// then the query for the repository's records; `records` and `listed` are
/// what those queries gave.
pub open spec fn diff_queries(
    log: Seq<Call>,
    scanned: Seq<ScannedFile>,
    repo: Seq<char>,
    records: Seq<Option<IndexedFileInfo>>,
    listed: Seq<Seq<char>>,
) -> bool {
    &&& log.len() == scanned.len() + 1
    &&& records.len() == scanned.len()
    &&& forall|i: int|
        0 <= i < scanned.len() ==> {
            &&& (#[trigger] log[i]).sql == GET_INDEXED_FILE_SQL@
            &&& key_row(log[i].args, scanned[i].path@)
            &&& log[i].reply matches Reply::Rows(rows) && record_lookup_gives(
                scanned[i].path@,
                rows,
                Ok::<Option<IndexedFileInfo>, AmpError>(records[i]),
            )
        }
    &&& log[scanned.len() as int].sql == LIST_INDEXED_FILES_SQL@
    &&& key_row(log[scanned.len() as int].args, repo)
    &&& log[scanned.len() as int].reply matches Reply::Rows(rows) && listed == paths_under(
        rows,
        repo,
        rows.len() as int,
    )
}

/// `d` is the comparison of `scanned` with what the queries in `log` gave.
pub open spec fn diff_from_queries(d: DiffResult, log: Seq<Call>, scanned: Seq<ScannedFile>, repo: Seq<char>) -> bool {
    exists|records: Seq<Option<IndexedFileInfo>>, listed: Seq<Seq<char>>|
        #[trigger] is_diff(d, scanned, records, listed) && diff_queries(log, scanned, repo, records, listed)
}

/// Compares the files found by a scan of `repo_path` with the index (see
/// `diff_index_traced`). What the index holds is read from the database.
pub fn diff_index(conn: &rusqlite::Connection, repo_path: &str, scanned: &Vec<ScannedFile>) -> (r:
    Result<DiffResult>)
    ensures
        r matches Ok(d) ==> diff_of_index(d, scanned@, repo_path@),
{
    let (r, _) = diff_index_traced(conn, repo_path, scanned);
    r
}

/// Compares a scan with the index as `diff_index` does, and gives the
/// statements handed to SQLite: only queries, for each scanned file in order
/// the query for its record, then the query for the indexed paths of the
/// repository. The answer is `diff_from` of what they gave.
pub fn diff_index_traced(conn: &rusqlite::Connection, repo_path: &str, scanned: &Vec<ScannedFile>) -> (r: (
    Result<DiffResult>,
    Ghost<Seq<Call>>,
))
    ensures
        forall|k: int|
            0 <= k < r.1@.len() ==> (#[trigger] r.1@[k]).sql == GET_INDEXED_FILE_SQL@ || r.1@[k].sql
                == LIST_INDEXED_FILES_SQL@,
        r.0 matches Ok(d) ==> diff_from_queries(d, r.1@, scanned@, repo_path@) && diff_of_index(
            d,
            scanned@,
            repo_path@,
        ),
{
    let storage = ChunkStorage::new(conn);
    let mut records: Vec<Option<IndexedFileInfo>> = Vec::new();
    let ghost mut log: Seq<Call> = Seq::empty();
    let mut i: usize = 0;
    while i < scanned.len()
        invariant
            i <= scanned@.len(),
            records@.len() == i,
            log.len() == i,
            forall|k: int|
                0 <= k < i ==> (#[trigger] records@[k] matches Some(f) ==> read_indexed_file(f)
                    && f.file_path@ == scanned@[k].path@),
            forall|k: int|
                0 <= k < i ==> {
                    &&& (#[trigger] log[k]).sql == GET_INDEXED_FILE_SQL@
                    &&& key_row(log[k].args, scanned@[k].path@)
                    &&& log[k].reply matches Reply::Rows(rows) && record_lookup_gives(
                        scanned@[k].path@,
                        rows,
                        Ok::<Option<IndexedFileInfo>, AmpError>(records@[k]),
                    )
                },
        decreases scanned@.len() - i,
    {
        let (found, call) = storage.get_indexed_file_traced(scanned[i].path.as_str());
        let ghost before = log;
        proof {
            log = log.push(call@[0]);
        }
        let found = match found {
            Ok(f) => f,
            Err(e) => {
                let traced: Ghost<Seq<Call>> = Ghost(log);
                return (Err(e), traced);
            },
        };
        proof {
            if found matches Some(_) {
                let f = found->Some_0;
                let rows = call@[0].reply->Rows_0;
                assert(indexed_file_cells(rows[0]) && indexed_file_of_row(rows[0], f));
            }
        }
        let ghost before_records = records@;
        records.push(found);
        proof {
            assert forall|k: int| 0 <= k < i + 1 implies {
                &&& (#[trigger] log[k]).sql == GET_INDEXED_FILE_SQL@
                &&& key_row(log[k].args, scanned@[k].path@)
                &&& log[k].reply matches Reply::Rows(rows) && record_lookup_gives(
                    scanned@[k].path@,
                    rows,
                    Ok::<Option<IndexedFileInfo>, AmpError>(records@[k]),
                )
            } by {
                if k < i {
                    assert(log[k] == before[k]);
                    assert(records@[k] == before_records[k]);
                }
            }
            assert forall|k: int| 0 <= k < i + 1 implies (#[trigger] records@[k] matches Some(f)
                ==> read_indexed_file(f) && f.file_path@ == scanned@[k].path@) by {
                if k < i {
                    assert(records@[k] == before_records[k]);
                }
            }
        }
        i = i + 1;
    }
    let (listed_res, lcall) = storage.list_indexed_files_traced(repo_path);
    let ghost before = log;
    proof {
        log = log.push(lcall@[0]);
    }
    let indexed_paths = match listed_res {
        Ok(v) => v,
        Err(e) => {
            proof {
                assert forall|k: int| 0 <= k < log.len() implies (#[trigger] log[k]).sql
                    == GET_INDEXED_FILE_SQL@ || log[k].sql == LIST_INDEXED_FILES_SQL@ by {
                    if k < before.len() {
                        assert(log[k] == before[k]);
                    }
                }
            }
            let traced: Ghost<Seq<Call>> = Ghost(log);
            return (Err(e), traced);
        },
    };
    let d = diff_from(scanned, &records, &indexed_paths);
    let ghost listed = strings_view(indexed_paths@);
    proof {
        assert forall|k: int| 0 <= k < log.len() implies (#[trigger] log[k]).sql == GET_INDEXED_FILE_SQL@
            || log[k].sql == LIST_INDEXED_FILES_SQL@ by {
            if k < before.len() {
                assert(log[k] == before[k]);
            }
        }
        assert forall|k: int| 0 <= k < scanned@.len() implies {
            &&& (#[trigger] log[k]).sql == GET_INDEXED_FILE_SQL@
            &&& key_row(log[k].args, scanned@[k].path@)
            &&& log[k].reply matches Reply::Rows(rows) && record_lookup_gives(
                scanned@[k].path@,
                rows,
                Ok::<Option<IndexedFileInfo>, AmpError>(records@[k]),
            )
        } by {
            assert(log[k] == before[k]);
        }
        assert(diff_queries(log, scanned@, repo_path@, records@, listed));
        assert(is_diff(d, scanned@, records@, listed));
        assert forall|j: int| 0 <= j < listed.len() implies listed_under(#[trigger] listed[j], repo_path@) by {
            assert(listed[j] == indexed_paths@[j]@);
        }
        assert(looked_up(scanned@, records@));
        assert(diff_of_index(d, scanned@, repo_path@));
    }
    let traced: Ghost<Seq<Call>> = Ghost(log);
    (Ok(d), traced)
}

/// Clears everything indexed for `repo_path` (its chunks, their embeddings
/// and its file records) ahead of a full re-index, and gives the number of
/// files that the fresh scan found (see `full_reindex_traced`).
pub fn full_reindex(conn: &rusqlite::Connection, repo_path: &str, scanned: &Vec<ScannedFile>) -> (r:
    Result<usize>)
    ensures
        r matches Ok(n) ==> n == scanned@.len(),
{
    let (r, _) = full_reindex_traced(conn, repo_path, scanned);
    r
}

/// Clears a repository as `full_reindex` does, and gives the statements
/// handed to SQLite: on success, those that clear `repo_path`
/// (`repo_cleared`).
pub fn full_reindex_traced(conn: &rusqlite::Connection, repo_path: &str, scanned: &Vec<ScannedFile>) -> (r: (
    Result<usize>,
    Ghost<Seq<Call>>,
))
    ensures
        r.0 matches Ok(n) ==> n == scanned@.len() && repo_cleared(r.1@, repo_path@),
{
    let storage = ChunkStorage::new(conn);
    let (res, log) = storage.delete_repo_data_traced(repo_path);
    match res {
        Ok(_) => (Ok(scanned.len()), log),
        Err(e) => (Err(e), log),
    }
}

/// No path reported deleted is the path of a scanned file.
pub proof fn lemma_deleted_not_scanned(paths: Seq<Seq<char>>, scanned: Seq<Seq<char>>, k: int)
    requires
        0 <= k <= paths.len(),
    ensures
        forall|i: int|
            0 <= i < unscanned(paths, scanned, k).len() ==> !scanned.contains(
                #[trigger] unscanned(paths, scanned, k)[i],
            ),
    decreases k,
{
    if k > 0 {
        lemma_deleted_not_scanned(paths, scanned, k - 1);
        let prev = unscanned(paths, scanned, k - 1);
        let cur = unscanned(paths, scanned, k);
        assert forall|i: int| 0 <= i < cur.len() implies !scanned.contains(#[trigger] cur[i]) by {
            if i < prev.len() {
                assert(cur[i] == prev[i]);
            }
        }
    }
}

/// Every scanned file is new, changed or unchanged, and only one of them:
/// the three lists that classification gives hold all the scanned files
/// between them.
pub proof fn lemma_diff_partition(scanned: Seq<ScannedFile>, kinds: Seq<FileChange>, k: int)
    requires
        0 <= k <= kinds.len(),
    ensures
        files_with(scanned, kinds, FileChange::New, k).len() + files_with(
            scanned,
            kinds,
            FileChange::Changed,
            k,
        ).len() + files_with(scanned, kinds, FileChange::Unchanged, k).len() == k,
    decreases k,
{
    if k > 0 {
        lemma_diff_partition(scanned, kinds, k - 1);
    }
}

/// A file is re-indexed only where it changed: a file whose index record is
/// at least as recent is unchanged, and one without a record is new.
pub proof fn lemma_classify_by_mtime(mtime: u64, indexed: Option<i64>)
    ensures
        spec_classify(mtime, indexed) == FileChange::Unchanged <==> (indexed matches Some(m)
            && mtime <= m as u64),
        spec_classify(mtime, indexed) == FileChange::New <==> indexed is None,
{
}

} // verus!
