//! Storing code chunks and the record of indexed files in the database.
use super::CodeChunk;
use crate::error::{AmpError, Result};
use crate::json::strings_view;
use crate::indexing::chunker::opt_str_view;
use crate::sql::{
    cell_int, cell_opt_text, cell_text, cells_of, execute_traced, is_text, key_args, key_limit_args,
    is_limit, key_row, key_text_args, lemma_sorts_then_limits, query_rows, sorts_then_limits, query_traced, text_arg, text_of, texts_from_rows, Call, Reply,
    SqlValue,
};
use vstd::prelude::*;

verus! {

broadcast use vstd::string::group_string_axioms;

/// Information about an indexed file.
#[derive(Debug, Clone)]
pub struct IndexedFileInfo {
    pub file_path: String,
    pub repo_path: String,
    pub mtime: i64,
    pub size: i64,
}

/// Search result for a code chunk.
#[derive(Debug, Clone)]
pub struct SearchResult {
    pub id: String,
    pub file_path: String,
    pub content: String,
    pub start_line: i64,
    pub end_line: i64,
    pub language: Option<String>,
    pub chunk_type: String,
}

/// The integer a cell holds, 0 for other cells.
pub open spec fn int_of(v: SqlValue) -> i64 {
    match v {
        SqlValue::Integer(n) => n,
        _ => 0,
    }
}

/// The cells of an indexed-file row (path, repository, mtime, size) have
/// the types they are read as.
pub open spec fn indexed_file_cells(row: Seq<SqlValue>) -> bool {
    &&& row.len() >= 4
    &&& row[0] is Text
    &&& row[1] is Text
    &&& row[2] is Integer
    &&& row[3] is Integer
}

/// `f` is the record a row of the indexed-files table stands for.
pub open spec fn indexed_file_of_row(row: Seq<SqlValue>, f: IndexedFileInfo) -> bool {
    &&& f.file_path@ == text_of(row[0])
    &&& f.repo_path@ == text_of(row[1])
    &&& f.mtime == int_of(row[2])
    &&& f.size == int_of(row[3])
}

/// `f` is what some row of the indexed-files table stands for.
pub open spec fn read_indexed_file(f: IndexedFileInfo) -> bool {
    exists|row: Seq<SqlValue>| indexed_file_cells(row) && #[trigger] indexed_file_of_row(row, f)
}

/// The record a row of the indexed-files table stands for.
pub fn indexed_file_from_row(row: &Vec<SqlValue>) -> (r: Result<IndexedFileInfo>)
    requires
        row@.len() >= 4,
    ensures
        match r {
            Ok(f) => indexed_file_cells(row@) && indexed_file_of_row(row@, f),
            Err(e) => !indexed_file_cells(row@) && e is Storage,
        },
{
    let file_path = cell_text(row, 0)?;
    let repo_path = cell_text(row, 1)?;
    let mtime = cell_int(row, 2)?;
    let size = cell_int(row, 3)?;
    Ok(IndexedFileInfo { file_path, repo_path, mtime, size })
}

/// A language cell: text or NULL.
pub open spec fn is_opt_text(v: SqlValue) -> bool {
    v is Text || v is Null
}

/// The language a language cell stands for.
pub open spec fn opt_text_of(v: SqlValue) -> Option<Seq<char>> {
    match v {
        SqlValue::Text(s) => Some(s@),
        _ => None,
    }
}

/// The cells of a search row (id, path, content, first line, last line,
/// language, kind) have the types they are read as.
pub open spec fn search_cells(row: Seq<SqlValue>) -> bool {
    &&& row.len() >= 7
    &&& row[0] is Text
    &&& row[1] is Text
    &&& row[2] is Text
    &&& row[3] is Integer
    &&& row[4] is Integer
    &&& is_opt_text(row[5])
    &&& row[6] is Text
}

/// `s` is the search result a row stands for.
pub open spec fn search_result_of_row(row: Seq<SqlValue>, s: SearchResult) -> bool {
    &&& s.id@ == text_of(row[0])
    &&& s.file_path@ == text_of(row[1])
    &&& s.content@ == text_of(row[2])
    &&& s.start_line == int_of(row[3])
    &&& s.end_line == int_of(row[4])
    &&& opt_str_view(s.language) == opt_text_of(row[5])
    &&& s.chunk_type@ == text_of(row[6])
}

/// `s` is what some row of a chunk search stands for.
pub open spec fn read_search_result(s: SearchResult) -> bool {
    exists|row: Seq<SqlValue>| search_cells(row) && #[trigger] search_result_of_row(row, s)
}

/// The search result a row of a chunk search stands for.
pub fn search_result_from_row(row: &Vec<SqlValue>) -> (r: Result<SearchResult>)
    requires
        row@.len() >= 7,
    ensures
        match r {
            Ok(s) => search_cells(row@) && search_result_of_row(row@, s),
            Err(e) => !search_cells(row@) && e is Storage,
        },
{
    let id = cell_text(row, 0)?;
    let file_path = cell_text(row, 1)?;
    let content = cell_text(row, 2)?;
    let start_line = cell_int(row, 3)?;
    let end_line = cell_int(row, 4)?;
    let language = cell_opt_text(row, 5)?;
    let chunk_type = cell_text(row, 6)?;
    Ok(SearchResult { id, file_path, content, start_line, end_line, language, chunk_type })
}

/// The search results the rows of a query stand for, in order.
pub fn search_results_from_rows(rows: &Vec<Vec<SqlValue>>) -> (r: Result<Vec<SearchResult>>)
    requires
        forall|i: int| 0 <= i < rows@.len() ==> (#[trigger] rows@[i])@.len() >= 7,
    ensures
        match r {
            Ok(v) => {
                &&& v@.len() == rows@.len()
                &&& forall|i: int| 0 <= i < v@.len() ==> search_cells(#[trigger] rows@[i]@)
                &&& forall|i: int|
                    0 <= i < v@.len() ==> search_result_of_row(rows@[i]@, #[trigger] v@[i])
            },
            Err(e) => e is Storage && exists|i: int|
                0 <= i < rows@.len() && !search_cells(#[trigger] rows@[i]@),
        },
{
    let mut out: Vec<SearchResult> = Vec::new();
    let mut i: usize = 0;
    while i < rows.len()
        invariant
            i <= rows@.len(),
            forall|k: int| 0 <= k < rows@.len() ==> (#[trigger] rows@[k])@.len() >= 7,
            out@.len() == i,
            forall|k: int| 0 <= k < i ==> search_cells(#[trigger] rows@[k]@),
            forall|k: int| 0 <= k < i ==> search_result_of_row(rows@[k]@, #[trigger] out@[k]),
        decreases rows@.len() - i,
    {
        let s = match search_result_from_row(&rows[i]) {
            Ok(s) => s,
            Err(e) => {
                assert(!search_cells(rows@[i as int]@));
                return Err(e);
            },
        };
        let ghost before = out@;
        out.push(s);
        proof {
            assert forall|k: int| 0 <= k < i + 1 implies search_result_of_row(
                rows@[k]@,
                #[trigger] out@[k],
            ) by {
                if k < i {
                    assert(out@[k] == before[k]);
                }
            }
        }
        i = i + 1;
    }
    Ok(out)
}

/// The argument for an optional text: the text, or NULL.
pub fn opt_text_arg(o: &Option<String>) -> (r: SqlValue)
    ensures
        match o {
            Some(s) => r matches SqlValue::Text(t) && t@ == s@,
            None => r is Null,
        },
{
    match o {
        Some(s) => SqlValue::Text(s.clone()),
        None => SqlValue::Null,
    }
}

/// An integer argument from a count, converted as `as i64` converts.
pub fn count_arg(n: usize) -> (r: SqlValue)
    ensures
        r == SqlValue::Integer(n as i64),
{
    #[verifier::truncate]
    let v = n as i64;
    SqlValue::Integer(v)
}

/// An integer argument from an unsigned value, converted as `as i64` converts.
pub fn u64_arg(n: u64) -> (r: SqlValue)
    ensures
        r == SqlValue::Integer(n as i64),
{
    #[verifier::truncate]
    let v = n as i64;
    SqlValue::Integer(v)
}

/// `row` holds the cells that record file `file_path` of repository
/// `repo_path` with modification time `mtime` and size `size` (the numbers as
/// SQLite integers, converted as `as i64` converts).
pub open spec fn file_record_row(row: Seq<SqlValue>, file_path: Seq<char>, repo_path: Seq<char>, mtime: u64, size: u64) -> bool {
    &&& row.len() == 4
    &&& row[0] is Text && text_of(row[0]) == file_path
    &&& row[1] is Text && text_of(row[1]) == repo_path
    &&& row[2] == SqlValue::Integer(mtime as i64)
    &&& row[3] == SqlValue::Integer(size as i64)
}

/// A record read back from the row written for a file is that file's
/// record: its path, repository, modification time and size.
pub proof fn lemma_indexed_file_read_after_write(
    row: Seq<SqlValue>,
    file_path: Seq<char>,
    repo_path: Seq<char>,
    mtime: u64,
    size: u64,
    read: IndexedFileInfo,
)
    requires
        file_record_row(row, file_path, repo_path, mtime, size),
        indexed_file_of_row(row, read),
    ensures
        read.file_path@ == file_path,
        read.repo_path@ == repo_path,
        read.mtime == mtime as i64,
        read.size == size as i64,
{
}

/// A record written and then looked up by its path comes back as written,
/// when the lookup's query returns first the row the write handed to SQLite:
/// the same path, repository, modification time and size.
pub proof fn lemma_record_read_back(
    row: Seq<SqlValue>,
    file_path: Seq<char>,
    repo_path: Seq<char>,
    mtime: u64,
    size: u64,
    rows: Seq<Seq<SqlValue>>,
    got: Result<Option<IndexedFileInfo>>,
)
    requires
        file_record_row(row, file_path, repo_path, mtime, size),
        rows.len() > 0,
        rows[0] == row,
        record_lookup_gives(file_path, rows, got),
    ensures
        got matches Ok(Some(f)) && f.file_path@ == file_path && f.repo_path@ == repo_path && f.mtime
            == mtime as i64 && f.size == size as i64,
{
    assert(indexed_file_cells(row));
    let f = got->Ok_0->Some_0;
    lemma_indexed_file_read_after_write(row, file_path, repo_path, mtime, size, f);
}

/// The cells that record an indexed file, in the order of the indexed-files
/// columns: path, repository, and modification time and size as SQLite
/// integers (converted as `as i64` converts). Read back, they give exactly
/// the record with those values.
pub fn indexed_file_args(file_path: &str, repo_path: &str, mtime: u64, size: u64) -> (r: Vec<
    SqlValue,
>)
    ensures
        r@.len() == 4,
        indexed_file_cells(r@),
        file_record_row(r@, file_path@, repo_path@, mtime, size),
        forall|f: IndexedFileInfo|
            #[trigger] indexed_file_of_row(r@, f) <==> (f.file_path@ == file_path@ && f.repo_path@
                == repo_path@ && f.mtime == mtime as i64 && f.size == size as i64),
{
    let mut args: Vec<SqlValue> = Vec::new();
    args.push(text_arg(file_path));
    args.push(text_arg(repo_path));
    args.push(u64_arg(mtime));
    args.push(u64_arg(size));
    args
}

/// `row` holds the cells that store `chunk`, in the order of the
/// code-chunks columns (see `chunk_args`).
pub open spec fn chunk_row(row: Seq<SqlValue>, chunk: CodeChunk) -> bool {
    &&& row.len() == 8
    &&& row[0] is Text && text_of(row[0]) == chunk.id@
    &&& row[1] is Text && text_of(row[1]) == chunk.file_path@
    &&& row[2] is Text && text_of(row[2]) == chunk.repo_path@
    &&& row[3] is Text && text_of(row[3]) == chunk.content@
    &&& is_opt_text(row[4]) && opt_text_of(row[4]) == opt_str_view(chunk.language)
    &&& row[5] == SqlValue::Integer(chunk.start_line as i64)
    &&& row[6] == SqlValue::Integer(chunk.end_line as i64)
    &&& row[7] is Text && text_of(row[7]) == chunk.chunk_type@
}

/// The statement that stores a chunk, replacing one with the same id.
pub const INSERT_CHUNK_SQL: &'static str = "INSERT OR REPLACE INTO code_chunks (id, file_path, repo_path, content, language, start_line, end_line, chunk_type)
                 VALUES (?, ?, ?, ?, ?, ?, ?, ?)";

/// The statement that stores a chunk's embedding, replacing an earlier one.
pub const INSERT_CHUNK_EMBEDDING_SQL: &'static str = "INSERT OR REPLACE INTO chunk_embeddings (id, embedding) VALUES (?, ?)";

/// The query for the ids of a file's chunks.
pub const SELECT_FILE_CHUNK_IDS_SQL: &'static str = "SELECT id FROM code_chunks WHERE file_path = ?";

/// The statement that deletes a chunk's embedding.
pub const DELETE_CHUNK_EMBEDDING_SQL: &'static str = "DELETE FROM chunk_embeddings WHERE id = ?";

/// The statement that deletes a file's chunks.
pub const DELETE_FILE_CHUNKS_SQL: &'static str = "DELETE FROM code_chunks WHERE file_path = ?";

/// The statement that records an indexed file, replacing an earlier record.
pub const UPSERT_INDEXED_FILE_SQL: &'static str = "INSERT OR REPLACE INTO indexed_files (file_path, repo_path, mtime, size) VALUES (?, ?, ?, ?)";

/// The query for the ids of a repository's chunks.
pub const SELECT_REPO_CHUNK_IDS_SQL: &'static str = "SELECT id FROM code_chunks WHERE repo_path = ?";

/// The statement that deletes a repository's chunks.
pub const DELETE_REPO_CHUNKS_SQL: &'static str = "DELETE FROM code_chunks WHERE repo_path = ?";

/// The statement that deletes a repository's file records.
pub const DELETE_REPO_FILES_SQL: &'static str = "DELETE FROM indexed_files WHERE repo_path = ?";

/// `c` stores `chunk`.
pub open spec fn chunk_stored(c: Call, chunk: CodeChunk) -> bool {
    c.sql == INSERT_CHUNK_SQL@ && chunk_row(c.args, chunk)
}

/// `c` stores the embedding `json` of the chunk `id`.
pub open spec fn embedding_stored(c: Call, id: Seq<char>, json: Seq<char>) -> bool {
    &&& c.sql == INSERT_CHUNK_EMBEDDING_SQL@
    &&& c.args.len() == 2
    &&& is_text(c.args[0], id)
    &&& is_text(c.args[1], json)
}

/// `c` deletes the embedding of the chunk `id`.
pub open spec fn embedding_deleted(c: Call, id: Seq<char>) -> bool {
    c.sql == DELETE_CHUNK_EMBEDDING_SQL@ && key_row(c.args, id)
}

/// The cells that store a code chunk, in the order of the code-chunks
/// columns: identifier, file, repository, content, language (NULL where
/// there is none), first and last line as SQLite integers (converted as
/// `as i64` converts), and kind.
pub fn chunk_args(chunk: &CodeChunk) -> (r: Vec<SqlValue>)
    ensures
        chunk_row(r@, *chunk),
        r@.len() == 8,
        r@[0] is Text && text_of(r@[0]) == chunk.id@,
        r@[1] is Text && text_of(r@[1]) == chunk.file_path@,
        r@[2] is Text && text_of(r@[2]) == chunk.repo_path@,
        r@[3] is Text && text_of(r@[3]) == chunk.content@,
        is_opt_text(r@[4]) && opt_text_of(r@[4]) == opt_str_view(chunk.language),
        r@[5] == SqlValue::Integer(chunk.start_line as i64),
        r@[6] == SqlValue::Integer(chunk.end_line as i64),
        r@[7] is Text && text_of(r@[7]) == chunk.chunk_type@,
{
    let mut args: Vec<SqlValue> = Vec::new();
    args.push(SqlValue::Text(chunk.id.clone()));
    args.push(SqlValue::Text(chunk.file_path.clone()));
    args.push(SqlValue::Text(chunk.repo_path.clone()));
    args.push(SqlValue::Text(chunk.content.clone()));
    args.push(opt_text_arg(&chunk.language));
    args.push(count_arg(chunk.start_line));
    args.push(count_arg(chunk.end_line));
    args.push(SqlValue::Text(chunk.chunk_type.clone()));
    args
}

/// A row of the indexed-files table (path, repository) holds path `p`
/// recorded under repository `repo`.
pub open spec fn listed_row(row: Seq<SqlValue>, p: Seq<char>, repo: Seq<char>) -> bool {
    &&& row.len() >= 2
    &&& row[0] is Text
    &&& row[1] is Text
    &&& text_of(row[0]) == p
    &&& text_of(row[1]) == repo
}

/// `p` is the path of some row of the indexed-files table recorded under
/// repository `repo`.
pub open spec fn listed_under(p: Seq<char>, repo: Seq<char>) -> bool {
    exists|row: Seq<SqlValue>| #[trigger] listed_row(row, p, repo)
}

/// The query for the record of one file.
pub const GET_INDEXED_FILE_SQL: &'static str = "SELECT file_path, repo_path, mtime, size FROM indexed_files WHERE file_path = ?";

/// The query for the records of a repository.
pub const LIST_INDEXED_FILES_SQL: &'static str = "SELECT file_path, repo_path FROM indexed_files WHERE repo_path = ?";

/// `r` is what looking up the record of `file_path` gives from the rows of
/// its query (see `indexed_file_lookup`).
pub open spec fn record_lookup_gives(
    file_path: Seq<char>,
    rows: Seq<Seq<SqlValue>>,
    r: Result<Option<IndexedFileInfo>>,
) -> bool {
    &&& rows.len() == 0 ==> (r matches Ok(None))
    &&& rows.len() > 0 ==> match r {
        Ok(Some(f)) => indexed_file_cells(rows[0]) && indexed_file_of_row(rows[0], f)
            && f.file_path@ == file_path,
        Ok(None) => indexed_file_cells(rows[0]) && text_of(rows[0][0]) != file_path,
        Err(e) => !indexed_file_cells(rows[0]) && e is Storage,
    }
}

/// The record a lookup of `file_path` gives from the rows of its query:
/// none without a row, the record of the first row when it is the record of
/// `file_path`, and none when it records another path.
pub fn indexed_file_lookup(file_path: &str, rows: &Vec<Vec<SqlValue>>) -> (r: Result<Option<IndexedFileInfo>>)
    requires
        forall|i: int| 0 <= i < rows@.len() ==> (#[trigger] rows@[i])@.len() >= 4,
    ensures
        record_lookup_gives(file_path@, cells_of(rows@), r),
{
    assert(rows@.len() > 0 ==> cells_of(rows@)[0] == rows@[0]@);
    if rows.len() == 0 {
        return Ok(None);
    }
    let f = indexed_file_from_row(&rows[0])?;
    if !crate::text::str_eq(f.file_path.as_str(), file_path) {
        return Ok(None);
    }
    Ok(Some(f))
}

/// The paths, in order, of the first `k` rows (path, repository) recorded
/// under repository `repo`.
pub open spec fn paths_under(rows: Seq<Seq<SqlValue>>, repo: Seq<char>, k: int) -> Seq<Seq<char>>
    decreases k,
{
    if k <= 0 {
        seq![]
    } else if text_of(rows[k - 1][1]) == repo {
        paths_under(rows, repo, k - 1).push(text_of(rows[k - 1][0]))
    } else {
        paths_under(rows, repo, k - 1)
    }
}

/// A row (path, repository) holds text in both cells.
pub open spec fn path_cells(row: Seq<SqlValue>) -> bool {
    row.len() >= 2 && row[0] is Text && row[1] is Text
}

/// The paths that the rows (path, repository) of a listing give for
/// repository `repo`: those recorded under `repo`, in order.
pub fn paths_from_rows(repo_path: &str, rows: &Vec<Vec<SqlValue>>) -> (r: Result<Vec<String>>)
    requires
        forall|i: int| 0 <= i < rows@.len() ==> (#[trigger] rows@[i])@.len() == 2,
    ensures
        match r {
            Ok(v) => {
                &&& forall|i: int| 0 <= i < rows@.len() ==> path_cells((#[trigger] rows@[i])@)
                &&& strings_view(v@) == paths_under(cells_of(rows@), repo_path@, rows@.len() as int)
                &&& forall|i: int| 0 <= i < v@.len() ==> listed_under((#[trigger] v@[i])@, repo_path@)
            },
            Err(e) => e is Storage && exists|i: int|
                0 <= i < rows@.len() && !path_cells((#[trigger] rows@[i])@),
        },
{
    let ghost cells = cells_of(rows@);
    let mut out: Vec<String> = Vec::new();
    let mut i: usize = 0;
    while i < rows.len()
        invariant
            i <= rows@.len(),
            cells == cells_of(rows@),
            forall|k: int| 0 <= k < rows@.len() ==> (#[trigger] rows@[k])@.len() == 2,
            forall|k: int| 0 <= k < i ==> path_cells((#[trigger] rows@[k])@),
            strings_view(out@) == paths_under(cells, repo_path@, i as int),
            forall|k: int| 0 <= k < out@.len() ==> listed_under((#[trigger] out@[k])@, repo_path@),
        decreases rows@.len() - i,
    {
        assert(cells[i as int] == rows@[i as int]@);
        let path = match cell_text(&rows[i], 0) {
            Ok(p) => p,
            Err(e) => {
                assert(!path_cells(rows@[i as int]@));
                return Err(e);
            },
        };
        let repo = match cell_text(&rows[i], 1) {
            Ok(p) => p,
            Err(e) => {
                assert(!path_cells(rows@[i as int]@));
                return Err(e);
            },
        };
        let ghost before = out@;
        if crate::text::str_eq(repo.as_str(), repo_path) {
            assert(listed_row(rows@[i as int]@, path@, repo_path@));
            out.push(path);
            assert(strings_view(out@) =~= strings_view(before).push(text_of(cells[i as int][0])));
            assert forall|k: int| 0 <= k < out@.len() implies listed_under(
                (#[trigger] out@[k])@,
                repo_path@,
            ) by {
                if k < before.len() {
                    assert(out@[k] == before[k]);
                }
            }
        }
        i = i + 1;
    }
    Ok(out)
}

/// `log` is what clearing repository `repo` hands SQLite: the query for
/// the ids of its chunks, the delete of the embedding of each id returned,
/// in order, then the deletes of its chunks and of its file records.
pub open spec fn repo_cleared(log: Seq<Call>, repo: Seq<char>) -> bool {
    &&& log.len() >= 1
    &&& log[0].sql == SELECT_REPO_CHUNK_IDS_SQL@ && key_row(log[0].args, repo)
    &&& log[0].reply matches Reply::Rows(rows) && {
        &&& log.len() == rows.len() + 3
        &&& forall|i: int|
            0 <= i < rows.len() ==> embedding_deleted(log[i + 1], text_of((#[trigger] rows[i])[0]))
        &&& log[rows.len() + 1int].sql == DELETE_REPO_CHUNKS_SQL@
        &&& key_row(log[rows.len() + 1int].args, repo)
        &&& log[rows.len() + 2int].sql == DELETE_REPO_FILES_SQL@
        &&& key_row(log[rows.len() + 2int].args, repo)
    }
}

/// Chunk storage operations.
pub struct ChunkStorage<'a> {
    conn: &'a rusqlite::Connection,
}

impl<'a> ChunkStorage<'a> {
    /// The connection the store works on.
    pub closed spec fn connection(&self) -> &'a rusqlite::Connection {
        self.conn
    }

    /// A store working on `conn`.
    pub fn new(conn: &'a rusqlite::Connection) -> (r: Self)
        ensures
            r.connection() == conn,
    {
        ChunkStorage { conn }
    }

    /// Stores one code chunk (the cells of `chunk_args`), replacing a chunk
    /// with the same identifier (see `store_chunk_traced`).
    pub fn store_chunk(&self, chunk: &CodeChunk) -> Result<()> {
        let (r, _) = self.store_chunk_traced(chunk);
        r
    }

    /// Stores a chunk as `store_chunk` does, and gives the statement handed
    /// to SQLite: the insert of the chunk's row.
    pub fn store_chunk_traced(&self, chunk: &CodeChunk) -> (r: (Result<()>, Ghost<Seq<Call>>))
        ensures
            r.1@.len() == 1,
            chunk_stored(r.1@[0], *chunk),
            r.0 is Ok <==> r.1@[0].reply is Changed,
            r.0 is Err ==> r.1@[0].reply is Failed,
    {
        let args = chunk_args(chunk);
        let (res, call) = execute_traced(self.conn, INSERT_CHUNK_SQL, &args);
        let ghost calls = seq![call@];
        let log: Ghost<Seq<Call>> = Ghost(calls);
        match res {
            Ok(_) => (Ok(()), log),
            Err(e) => (Err(AmpError::Storage(e)), log),
        }
    }

    /// Stores the embedding of a chunk, given as JSON text, replacing an
    /// earlier one (see `store_chunk_embedding_traced`).
    pub fn store_chunk_embedding(&self, chunk_id: &str, embedding_json: &str) -> Result<()> {
        let (r, _) = self.store_chunk_embedding_traced(chunk_id, embedding_json);
        r
    }

    /// Stores a chunk's embedding as `store_chunk_embedding` does, and gives
    /// the statement handed to SQLite: the insert of `[chunk_id, json]`.
    pub fn store_chunk_embedding_traced(&self, chunk_id: &str, embedding_json: &str) -> (r: (
        Result<()>,
        Ghost<Seq<Call>>,
    ))
        ensures
            r.1@.len() == 1,
            embedding_stored(r.1@[0], chunk_id@, embedding_json@),
            r.0 is Ok <==> r.1@[0].reply is Changed,
            r.0 is Err ==> r.1@[0].reply is Failed,
    {
        let args = key_text_args(chunk_id, embedding_json);
        let (res, call) = execute_traced(self.conn, INSERT_CHUNK_EMBEDDING_SQL, &args);
        let ghost calls = seq![call@];
        let log: Ghost<Seq<Call>> = Ghost(calls);
        match res {
            Ok(_) => (Ok(()), log),
            Err(e) => (Err(AmpError::Storage(e)), log),
        }
    }

    /// Stores code chunks, each followed by its embedding given as JSON text
    /// (the embedding of chunk `i` is `embeddings_json[i]`), replacing chunks
    /// and embeddings with the same identifiers (see `store_chunks_traced`).
    /// On success, the number stored is the number of chunks; with no chunks
    /// nothing is written and it succeeds.
    pub fn store_chunks(&self, chunks: &[CodeChunk], embeddings_json: &Vec<String>) -> (r: Result<
        usize,
    >)
        requires
            embeddings_json@.len() == chunks@.len(),
        ensures
            r matches Ok(n) ==> n == chunks@.len(),
            chunks@.len() == 0 ==> (r matches Ok(n) && n == 0),
    {
        let (r, _) = self.store_chunks_traced(chunks, embeddings_json);
        r
    }

    /// Stores chunks as `store_chunks` does, and gives the statements handed
    /// to SQLite, in order: for each chunk, the insert of its row and then the
    /// insert of its embedding. On success all of them were handed and
    /// changed a row; on a failure, those up to the one that failed.
    pub fn store_chunks_traced(&self, chunks: &[CodeChunk], embeddings_json: &Vec<String>) -> (r: (
        Result<usize>,
        Ghost<Seq<Call>>,
    ))
        requires
            embeddings_json@.len() == chunks@.len(),
        ensures
            r.1@.len() <= 2 * chunks@.len(),
            forall|i: int|
                0 <= i < chunks@.len() && 2 * i < r.1@.len() ==> chunk_stored(
                    r.1@[2 * i],
                    #[trigger] chunks@[i],
                ),
            forall|i: int|
                0 <= i < chunks@.len() && 2 * i + 1 < r.1@.len() ==> embedding_stored(
                    r.1@[2 * i + 1],
                    (#[trigger] chunks@[i]).id@,
                    embeddings_json@[i]@,
                ),
            r.0 matches Ok(n) ==> n == chunks@.len() && r.1@.len() == 2 * chunks@.len() && forall|
                k: int,
            | 0 <= k < r.1@.len() ==> (#[trigger] r.1@[k]).reply is Changed,
            chunks@.len() == 0 ==> (r.0 matches Ok(n) && n == 0),
    {
        let ghost mut log: Seq<Call> = Seq::empty();
        if chunks.len() == 0 {
            let traced: Ghost<Seq<Call>> = Ghost(log);
            return (Ok(0), traced);
        }
        let mut i: usize = 0;
        while i < chunks.len()
            invariant
                i <= chunks@.len(),
                embeddings_json@.len() == chunks@.len(),
                log.len() == 2 * i,
                forall|j: int| 0 <= j < i ==> chunk_stored(log[2 * j], #[trigger] chunks@[j]),
                forall|j: int|
                    0 <= j < i ==> embedding_stored(
                        log[2 * j + 1],
                        (#[trigger] chunks@[j]).id@,
                        embeddings_json@[j]@,
                    ),
                forall|k: int| 0 <= k < log.len() ==> (#[trigger] log[k]).reply is Changed,
            decreases chunks@.len() - i,
        {
            let chunk = &chunks[i];
            let (r1, c1) = self.store_chunk_traced(chunk);
            let ghost before = log;
            proof {
                log = log.push(c1@[0]);
                assert forall|j: int| 0 <= j < i implies chunk_stored(log[2 * j], #[trigger] chunks@[j]) by {
                    assert(log[2 * j] == before[2 * j]);
                }
                assert forall|j: int| 0 <= j < i implies embedding_stored(
                    log[2 * j + 1],
                    (#[trigger] chunks@[j]).id@,
                    embeddings_json@[j]@,
                ) by {
                    assert(log[2 * j + 1] == before[2 * j + 1]);
                }
            }
            if let Err(e) = r1 {
                let traced: Ghost<Seq<Call>> = Ghost(log);
            return (Err(e), traced);
            }
            let (r2, c2) = self.store_chunk_embedding_traced(chunk.id.as_str(), embeddings_json[i].as_str());
            let ghost mid = log;
            proof {
                log = log.push(c2@[0]);
                assert forall|j: int| 0 <= j < i + 1 implies chunk_stored(log[2 * j], #[trigger] chunks@[j]) by {
                    assert(log[2 * j] == mid[2 * j]);
                }
                assert forall|j: int| 0 <= j < i implies embedding_stored(
                    log[2 * j + 1],
                    (#[trigger] chunks@[j]).id@,
                    embeddings_json@[j]@,
                ) by {
                    assert(log[2 * j + 1] == mid[2 * j + 1]);
                }
            }
            if let Err(e) = r2 {
                let traced: Ghost<Seq<Call>> = Ghost(log);
            return (Err(e), traced);
            }
            proof {
                assert forall|k: int| 0 <= k < log.len() implies (#[trigger] log[k]).reply is Changed by {
                    if k < mid.len() {
                        assert(log[k] == mid[k]);
                        if k < before.len() {
                            assert(mid[k] == before[k]);
                        }
                    }
                }
            }
            i = i + 1;
        }
        let traced: Ghost<Seq<Call>> = Ghost(log);
        (Ok(i), traced)
    }

    /// Deletes all chunks of a file and their embeddings; the number of
    /// chunks deleted (see `delete_file_chunks_traced`).
    pub fn delete_file_chunks(&self, file_path: &str) -> Result<usize> {
        let (r, _) = self.delete_file_chunks_traced(file_path);
        r
    }

    /// Deletes a file's chunks as `delete_file_chunks` does, and gives the
    /// statements handed to SQLite: the query for the ids of the file's
    /// chunks, the delete of the embedding of each id it returned, in order,
    /// and the delete of the file's chunks, whose count of changed rows is
    /// the answer.
    pub fn delete_file_chunks_traced(&self, file_path: &str) -> (r: (Result<usize>, Ghost<Seq<Call>>))
        ensures
            r.1@.len() >= 1,
            r.1@[0].sql == SELECT_FILE_CHUNK_IDS_SQL@ && key_row(r.1@[0].args, file_path@),
            r.0 matches Ok(n) ==> r.1@[0].reply matches Reply::Rows(rows) && {
                &&& r.1@.len() == rows.len() + 2
                &&& forall|i: int|
                    0 <= i < rows.len() ==> embedding_deleted(r.1@[i + 1], text_of((#[trigger] rows[i])[0]))
                &&& r.1@.last().sql == DELETE_FILE_CHUNKS_SQL@
                &&& key_row(r.1@.last().args, file_path@)
                &&& r.1@.last().reply == Reply::Changed(n)
            },
    {
        let args = key_args(file_path);
        let (res, q) = query_traced(self.conn, SELECT_FILE_CHUNK_IDS_SQL, &args, 1);
        let ghost mut log: Seq<Call> = seq![q@];
        let rows = match res {
            Ok(rows) => rows,
            Err(e) => {
                let traced: Ghost<Seq<Call>> = Ghost(log);
                return (Err(AmpError::Storage(e)), traced);
            },
        };
        let ids = match texts_from_rows(&rows) {
            Ok(ids) => ids,
            Err(e) => {
                let traced: Ghost<Seq<Call>> = Ghost(log);
                return (Err(e), traced);
            },
        };
        let ghost cells = cells_of(rows@);
        let (done, log2) = self.delete_embeddings(&ids, Ghost(log));
        let ghost mut log = log2@;
        assert(log.take(1)[0] == log[0]);
        assert(log[0] == q@);
        if let Err(e) = done {
            let traced: Ghost<Seq<Call>> = Ghost(log);
            return (Err(e), traced);
        }
        proof {
            assert forall|i: int| 0 <= i < cells.len() implies embedding_deleted(
                log[i + 1],
                text_of((#[trigger] cells[i])[0]),
            ) by {
                assert(cells[i] == rows@[i]@);
                assert(ids@[i]@ == text_of(rows@[i]@[0]));
            }
        }
        let (res, last) = execute_traced(self.conn, DELETE_FILE_CHUNKS_SQL, &args);
        let ghost before = log;
        proof {
            log = log.push(last@);
            assert forall|i: int| 0 <= i < cells.len() implies embedding_deleted(
                log[i + 1],
                text_of((#[trigger] cells[i])[0]),
            ) by {
                assert(log[i + 1] == before[i + 1]);
            }
        }
        match res {
            Ok(n) => {
            let traced: Ghost<Seq<Call>> = Ghost(log);
            (Ok(n), traced)
        },
            Err(e) => {
            let traced: Ghost<Seq<Call>> = Ghost(log);
            (Err(AmpError::Storage(e)), traced)
        },
        }
    }

    /// Deletes the embedding of each chunk id, in order, appending each
    /// statement handed to SQLite to `log`; stops at the first failure.
    fn delete_embeddings(&self, ids: &Vec<String>, log: Ghost<Seq<Call>>) -> (r: (Result<()>, Ghost<Seq<Call>>))
        ensures
            log@.len() <= r.1@.len() <= log@.len() + ids@.len(),
            r.1@.take(log@.len() as int) == log@,
            forall|i: int|
                0 <= i < ids@.len() && log@.len() + i < r.1@.len() ==> embedding_deleted(
                    r.1@[log@.len() + i],
                    (#[trigger] ids@[i])@,
                ),
            r.0 is Ok ==> r.1@.len() == log@.len() + ids@.len(),
    {
        let ghost start = log@;
        let ghost mut out = log@;
        assert(out.take(start.len() as int) =~= start);
        let mut i: usize = 0;
        while i < ids.len()
            invariant
                i <= ids@.len(),
                start == log@,
                out.len() == start.len() + i,
                out.take(start.len() as int) == start,
                forall|j: int| 0 <= j < i ==> embedding_deleted(out[start.len() + j], (#[trigger] ids@[j])@),
            decreases ids@.len() - i,
        {
            let dargs = key_args(ids[i].as_str());
            let (res, c) = execute_traced(self.conn, DELETE_CHUNK_EMBEDDING_SQL, &dargs);
            let ghost before = out;
            proof {
                out = out.push(c@);
                assert(out.take(start.len() as int) =~= before.take(start.len() as int));
                assert forall|j: int| 0 <= j < i + 1 implies embedding_deleted(
                    out[start.len() + j],
                    (#[trigger] ids@[j])@,
                ) by {
                    if j < i {
                        assert(out[start.len() + j] == before[start.len() + j]);
                    }
                }
            }
            if let Err(e) = res {
                let traced: Ghost<Seq<Call>> = Ghost(out);
            return (Err(AmpError::Storage(e)), traced);
            }
            i = i + 1;
        }
        let traced: Ghost<Seq<Call>> = Ghost(out);
        (Ok(()), traced)
    }

    /// The record of an indexed file, if there is one (see
    /// `get_indexed_file_traced`). On success a record returned is the one a
    /// row of the indexed-files table stands for, and is the record of
    /// `file_path`: a row of another path is not taken for it.
    pub fn get_indexed_file(&self, file_path: &str) -> (r: Result<Option<IndexedFileInfo>>)
        ensures
            r matches Ok(Some(f)) ==> read_indexed_file(f) && f.file_path@ == file_path@,
    {
        let (r, log) = self.get_indexed_file_traced(file_path);
        proof {
            if r matches Ok(Some(_)) {
                let f = r->Ok_0->Some_0;
                let rows = log@[0].reply->Rows_0;
                assert(indexed_file_cells(rows[0]) && indexed_file_of_row(rows[0], f));
            }
        }
        r
    }

    /// Looks up a file's record as `get_indexed_file` does, and gives the
    /// query handed to SQLite: the record of `file_path` is asked for, and
    /// the answer is what `indexed_file_lookup` gives from the rows that come
    /// back.
    pub fn get_indexed_file_traced(&self, file_path: &str) -> (r: (
        Result<Option<IndexedFileInfo>>,
        Ghost<Seq<Call>>,
    ))
        ensures
            r.1@.len() == 1,
            r.1@[0].sql == GET_INDEXED_FILE_SQL@ && key_row(r.1@[0].args, file_path@),
            match r.1@[0].reply {
                Reply::Rows(rows) => record_lookup_gives(file_path@, rows, r.0),
                Reply::Failed => r.0 matches Err(AmpError::Storage(_)),
                Reply::Changed(_) => false,
            },
    {
        let args = key_args(file_path);
        let (res, call) = query_traced(self.conn, GET_INDEXED_FILE_SQL, &args, 4);
        let ghost calls = seq![call@];
        let log: Ghost<Seq<Call>> = Ghost(calls);
        match res {
            Ok(rows) => (indexed_file_lookup(file_path, &rows), log),
            Err(e) => (Err(AmpError::Storage(e)), log),
        }
    }

    /// Records that a file of a repository was indexed, with its modification
    /// time and size (the cells of `indexed_file_args`), replacing an earlier
    /// record of the same file (see `update_indexed_file_traced`).
    pub fn update_indexed_file(&self, file_path: &str, repo_path: &str, mtime: u64, size: u64) -> Result<()> {
        let (r, _) = self.update_indexed_file_traced(file_path, repo_path, mtime, size);
        r
    }

    /// Records an indexed file as `update_indexed_file` does, and gives the
    /// statement handed to SQLite: the insert of the file's record row.
    pub fn update_indexed_file_traced(&self, file_path: &str, repo_path: &str, mtime: u64, size: u64) -> (r: (
        Result<()>,
        Ghost<Seq<Call>>,
    ))
        ensures
            r.1@.len() == 1,
            r.1@[0].sql == UPSERT_INDEXED_FILE_SQL@,
            file_record_row(r.1@[0].args, file_path@, repo_path@, mtime, size),
            r.0 is Ok <==> r.1@[0].reply is Changed,
    {
        let args = indexed_file_args(file_path, repo_path, mtime, size);
        let (res, call) = execute_traced(self.conn, UPSERT_INDEXED_FILE_SQL, &args);
        let ghost calls = seq![call@];
        let log: Ghost<Seq<Call>> = Ghost(calls);
        match res {
            Ok(_) => (Ok(()), log),
            Err(e) => (Err(AmpError::Storage(e)), log),
        }
    }

    /// The chunks closest to a query embedding (given as JSON text), nearest
    /// first, at most `limit` (a `limit` beyond `i64::MAX` is passed on as
    /// SQLite reads it); needs the sqlite-vec extension (see
    /// `search_chunks_traced`). Which chunks come back depends on the
    /// database; each is what a row of the search stands for.
    pub fn search_chunks(&self, query_embedding_json: &str, limit: usize) -> (r: Result<
        Vec<SearchResult>,
    >)
        ensures
            r matches Ok(v) ==> forall|i: int| 0 <= i < v@.len() ==> read_search_result(#[trigger] v@[i]),
    {
        let (r, _) = self.search_chunks_traced(query_embedding_json, limit);
        r
    }

    /// Searches chunks as `search_chunks` does, and gives the query handed
    /// to SQLite: it asks for `[query, limit]` and sorts by distance to the
    /// query, nearest first, before its limit keeps the first ones
    /// (`sorts_then_limits` with `ORDER BY vec_distance(ce.embedding, ?)
    /// ASC`); the results are, in order, those the rows that come back stand
    /// for.
    pub fn search_chunks_traced(&self, query_embedding_json: &str, limit: usize) -> (r: (
        Result<Vec<SearchResult>>,
        Ghost<Seq<Call>>,
    ))
        ensures
            r.1@.len() == 1,
            sorts_then_limits(r.1@[0].sql, "ORDER BY vec_distance(ce.embedding, ?) ASC"@),
            r.1@[0].args.len() == 2 && is_text(r.1@[0].args[0], query_embedding_json@) && is_limit(
                r.1@[0].args[1],
                limit,
            ),
            r.0 matches Ok(v) ==> {
                &&& forall|i: int| 0 <= i < v@.len() ==> read_search_result(#[trigger] v@[i])
                &&& r.1@[0].reply matches Reply::Rows(rows) && v@.len() == rows.len() && forall|i: int|
                    0 <= i < v@.len() ==> search_result_of_row(rows[i], #[trigger] v@[i])
            },
    {
        let args = key_limit_args(query_embedding_json, limit);
        proof {
            reveal_strlit("SELECT c.id, c.file_path, c.content, c.start_line, c.end_line, c.language, c.chunk_type
             FROM code_chunks c
             JOIN chunk_embeddings ce ON c.id = ce.id
             ORDER BY vec_distance(ce.embedding, ?) ASC
             LIMIT ?");
            reveal_strlit("ORDER BY vec_distance(ce.embedding, ?) ASC");
            reveal_strlit("LIMIT");
        }
        let (res, call) = query_traced(
            self.conn,
            "SELECT c.id, c.file_path, c.content, c.start_line, c.end_line, c.language, c.chunk_type
             FROM code_chunks c
             JOIN chunk_embeddings ce ON c.id = ce.id
             ORDER BY vec_distance(ce.embedding, ?) ASC
             LIMIT ?",
            &args,
            7,
        );
        proof {
            lemma_sorts_then_limits(call@.sql, "ORDER BY vec_distance(ce.embedding, ?) ASC"@, 187, 243);
        }
        let ghost calls = seq![call@];
        let log: Ghost<Seq<Call>> = Ghost(calls);
        let rows = match res {
            Ok(rows) => rows,
            Err(e) => {
                return (Err(AmpError::Storage(e)), log);
            },
        };
        let v = match search_results_from_rows(&rows) {
            Ok(v) => v,
            Err(e) => {
                return (Err(e), log);
            },
        };
        proof {
            assert forall|i: int| 0 <= i < v@.len() implies read_search_result(#[trigger] v@[i]) by {
                assert(search_cells(rows@[i]@));
                assert(search_result_of_row(rows@[i]@, v@[i]));
            }
            let cells = cells_of(rows@);
            assert forall|i: int| 0 <= i < v@.len() implies search_result_of_row(cells[i], #[trigger] v@[i]) by {
                assert(cells[i] == rows@[i]@);
            }
        }
        (Ok(v), log)
    }

    /// The paths of all indexed files of a repository (see
    /// `list_indexed_files_traced`): of what the query gives back, only paths
    /// recorded under `repo_path` are kept, in order.
    pub fn list_indexed_files(&self, repo_path: &str) -> (r: Result<Vec<String>>)
        ensures
            r matches Ok(v) ==> forall|i: int| 0 <= i < v@.len() ==> listed_under((#[trigger] v@[i])@, repo_path@),
    {
        let (r, _) = self.list_indexed_files_traced(repo_path);
        r
    }

    /// Lists a repository's indexed paths as `list_indexed_files` does, and
    /// gives the query handed to SQLite: the records of `repo_path` are asked
    /// for, and the answer is what `paths_from_rows` gives from the rows that
    /// come back.
    pub fn list_indexed_files_traced(&self, repo_path: &str) -> (r: (Result<Vec<String>>, Ghost<Seq<Call>>))
        ensures
            r.1@.len() == 1,
            r.1@[0].sql == LIST_INDEXED_FILES_SQL@ && key_row(r.1@[0].args, repo_path@),
            r.1@[0].reply is Changed ==> false,
            r.0 matches Ok(v) ==> {
                &&& r.1@[0].reply matches Reply::Rows(rows)
                &&& strings_view(v@) == paths_under(rows, repo_path@, rows.len() as int)
                &&& forall|i: int| 0 <= i < v@.len() ==> listed_under((#[trigger] v@[i])@, repo_path@)
            },
    {
        let args = key_args(repo_path);
        let (res, call) = query_traced(self.conn, LIST_INDEXED_FILES_SQL, &args, 2);
        let ghost calls = seq![call@];
        let log: Ghost<Seq<Call>> = Ghost(calls);
        match res {
            Ok(rows) => (paths_from_rows(repo_path, &rows), log),
            Err(e) => (Err(AmpError::Storage(e)), log),
        }
    }

    /// Deletes all chunks, embeddings and file records of a repository (see
    /// `delete_repo_data_traced`).
    pub fn delete_repo_data(&self, repo_path: &str) -> Result<()> {
        let (r, _) = self.delete_repo_data_traced(repo_path);
        r
    }

    /// Deletes a repository's data as `delete_repo_data` does, and gives the
    /// statements handed to SQLite: the query for the ids of the
    /// repository's chunks, the delete of the embedding of each id it
    /// returned, in order, then the deletes of the repository's chunks and
    /// of its file records.
    pub fn delete_repo_data_traced(&self, repo_path: &str) -> (r: (Result<()>, Ghost<Seq<Call>>))
        ensures
            r.1@.len() >= 1,
            r.1@[0].sql == SELECT_REPO_CHUNK_IDS_SQL@ && key_row(r.1@[0].args, repo_path@),
            r.0 is Ok ==> repo_cleared(r.1@, repo_path@),
    {
        let args = key_args(repo_path);
        let (res, q) = query_traced(self.conn, SELECT_REPO_CHUNK_IDS_SQL, &args, 1);
        let ghost log: Seq<Call> = seq![q@];
        let rows = match res {
            Ok(rows) => rows,
            Err(e) => {
                let traced: Ghost<Seq<Call>> = Ghost(log);
                return (Err(AmpError::Storage(e)), traced);
            },
        };
        let ids = match texts_from_rows(&rows) {
            Ok(ids) => ids,
            Err(e) => {
                let traced: Ghost<Seq<Call>> = Ghost(log);
                return (Err(e), traced);
            },
        };
        let ghost cells = cells_of(rows@);
        let (done, log2) = self.delete_embeddings(&ids, Ghost(log));
        let ghost mut log = log2@;
        assert(log.take(1)[0] == log[0]);
        assert(log[0] == q@);
        if let Err(e) = done {
            let traced: Ghost<Seq<Call>> = Ghost(log);
            return (Err(e), traced);
        }
        proof {
            assert forall|i: int| 0 <= i < cells.len() implies embedding_deleted(
                log[i + 1],
                text_of((#[trigger] cells[i])[0]),
            ) by {
                assert(cells[i] == rows@[i]@);
                assert(ids@[i]@ == text_of(rows@[i]@[0]));
            }
        }
        let (res1, c1) = execute_traced(self.conn, DELETE_REPO_CHUNKS_SQL, &args);
        let ghost before = log;
        proof {
            log = log.push(c1@);
            assert forall|i: int| 0 <= i < cells.len() implies embedding_deleted(
                log[i + 1],
                text_of((#[trigger] cells[i])[0]),
            ) by {
                assert(log[i + 1] == before[i + 1]);
            }
        }
        if let Err(e) = res1 {
            let traced: Ghost<Seq<Call>> = Ghost(log);
            return (Err(AmpError::Storage(e)), traced);
        }
        let (res2, c2) = execute_traced(self.conn, DELETE_REPO_FILES_SQL, &args);
        let ghost mid = log;
        proof {
            log = log.push(c2@);
            assert forall|i: int| 0 <= i < cells.len() implies embedding_deleted(
                log[i + 1],
                text_of((#[trigger] cells[i])[0]),
            ) by {
                assert(log[i + 1] == mid[i + 1]);
            }
            assert(log[cells.len() + 1int] == mid[cells.len() + 1int]);
        }
        match res2 {
            Ok(_) => {
            let traced: Ghost<Seq<Call>> = Ghost(log);
            (Ok(()), traced)
        },
            Err(e) => {
            let traced: Ghost<Seq<Call>> = Ghost(log);
            (Err(AmpError::Storage(e)), traced)
        },
        }
    }
}

} // verus!
