//! The calls into rusqlite. Statements and their arguments are built by
//! the library; what the database holds, and so what a query returns, is
//! not known here.
use crate::error::{AmpError, Result};
use crate::text::is_ws;
use vstd::prelude::*;

verus! {

#[verifier::external_type_specification]
#[verifier::external_body]
pub struct ExConnection(rusqlite::Connection);

#[verifier::external_type_specification]
#[verifier::external_body]
pub struct ExSqlValue(rusqlite::types::Value);

/// A value stored in or passed to SQLite. A floating-point value is held by
/// the bits of its IEEE 754 double (`to_bits`); the library never computes
/// with it.
#[derive(Debug, Clone)]
pub enum SqlValue {
    Null,
    Integer(i64),
    Real(u64),
    Text(String),
    Blob(Vec<u8>),
}

/// A number read from a cell that the caller reads as a floating-point value
/// (as rusqlite does, an integer cell is read too): the integer, or the bits
/// of the double.
#[derive(Debug, Clone, Copy, PartialEq, Eq, Structural)]
pub enum SqlNumber {
    Integer(i64),
    Real(u64),
}

/// The rusqlite value for an argument, variant for variant (a
/// floating-point value from its bits).
#[verifier::external_body]
fn sql_param(v: &SqlValue) -> rusqlite::types::Value {
    match v {
        SqlValue::Null => rusqlite::types::Value::Null,
        SqlValue::Integer(i) => rusqlite::types::Value::Integer(*i),
        SqlValue::Real(bits) => rusqlite::types::Value::Real(bytemuck::cast(*bits)),
        SqlValue::Text(s) => rusqlite::types::Value::Text(s.clone()),
        SqlValue::Blob(b) => rusqlite::types::Value::Blob(b.clone()),
    }
}

/// The library's value for a rusqlite cell, variant for variant (a
/// floating-point value by its bits).
#[verifier::external_body]
fn sql_cell(v: &rusqlite::types::Value) -> SqlValue {
    match v {
        rusqlite::types::Value::Null => SqlValue::Null,
        rusqlite::types::Value::Integer(i) => SqlValue::Integer(*i),
        rusqlite::types::Value::Real(x) => SqlValue::Real(bytemuck::cast(*x)),
        rusqlite::types::Value::Text(s) => SqlValue::Text(s.clone()),
        rusqlite::types::Value::Blob(b) => SqlValue::Blob(b.clone()),
    }
}

/// The rusqlite values of a statement's arguments, in order.
fn sql_params(args: &Vec<SqlValue>) -> (r: Vec<rusqlite::types::Value>)
    ensures
        r@.len() == args@.len(),
{
    let mut out: Vec<rusqlite::types::Value> = Vec::new();
    let mut i: usize = 0;
    while i < args.len()
        invariant
            i <= args@.len(),
            out@.len() == i,
        decreases args@.len() - i,
    {
        out.push(sql_param(&args[i]));
        i = i + 1;
    }
    out
}

/// `Connection::open_with_flags` for reading and writing, creating the file
/// if needed, without SQLite's own mutex. Depends on the file system.
#[verifier::external_body]
pub fn open_connection(path: &str) -> std::result::Result<rusqlite::Connection, rusqlite::Error> {
    rusqlite::Connection::open_with_flags(
        path,
        rusqlite::OpenFlags::SQLITE_OPEN_READ_WRITE | rusqlite::OpenFlags::SQLITE_OPEN_CREATE
            | rusqlite::OpenFlags::SQLITE_OPEN_NO_MUTEX,
    )
}

/// `Connection::open` with rusqlite's default flags. Depends on the file
/// system.
#[verifier::external_body]
pub fn open_default_connection(path: &str) -> std::result::Result<rusqlite::Connection, rusqlite::Error> {
    rusqlite::Connection::open(path)
}

/// `Connection::open_in_memory`.
#[verifier::external_body]
pub fn open_memory_connection() -> std::result::Result<rusqlite::Connection, rusqlite::Error> {
    rusqlite::Connection::open_in_memory()
}

/// `Connection::pragma_update` on the main schema.
#[verifier::external_body]
pub fn pragma_update(conn: &rusqlite::Connection, name: &str, value: &str) -> std::result::Result<
    (),
    rusqlite::Error,
> {
    conn.pragma_update(None, name, value)
}

/// `Connection::execute_batch`: runs the statements of `sql` in turn.
#[verifier::external_body]
pub fn execute_batch(conn: &rusqlite::Connection, sql: &str) -> std::result::Result<
    (),
    rusqlite::Error,
> {
    conn.execute_batch(sql)
}

/// `Connection::execute` of one statement with positional arguments
/// (`params_from_iter`); the count of changed rows depends on the database.
#[verifier::external_body]
fn execute_params(conn: &rusqlite::Connection, sql: &str, params: Vec<rusqlite::types::Value>) -> std::result::Result<
    usize,
    rusqlite::Error,
> {
    conn.execute(sql, rusqlite::params_from_iter(params))
}

/// What SQLite answered to a statement handed to it.
pub enum Reply {
    /// The statement ran and changed this many rows.
    Changed(usize),
    /// The query ran and returned these rows (their cells).
    Rows(Seq<Seq<SqlValue>>),
    /// The statement failed.
    Failed,
}

/// A statement handed to SQLite: its text, its positional arguments, and
/// what SQLite answered.
pub struct Call {
    pub sql: Seq<char>,
    pub args: Seq<SqlValue>,
    pub reply: Reply,
}

/// The cells of each row.
pub open spec fn cells_of(rows: Seq<Vec<SqlValue>>) -> Seq<Seq<SqlValue>> {
    rows.map_values(|row: Vec<SqlValue>| row@)
}

/// `c` hands SQLite the statement `sql` with the arguments `args`.
pub open spec fn hands(c: Call, sql: Seq<char>, args: Seq<SqlValue>) -> bool {
    c.sql == sql && c.args == args
}

/// The statement `sql` sorts what it selects by the clause `order` and then
/// keeps the first rows: `order` stands in it followed, past whitespace
/// only, by `LIMIT`. SQLite gives the rows of such a statement in that order
/// from the first, as many as the limit allows.
pub open spec fn sorts_then_limits(sql: Seq<char>, order: Seq<char>) -> bool {
    exists|i: int, j: int|
        #![trigger sql.subrange(i, i + order.len()), sql.subrange(j, j + 5)]
        0 <= i && i + order.len() <= j && j + 5 <= sql.len() && sql.subrange(i, i + order.len())
            == order && (forall|k: int| i + order.len() <= k < j ==> is_ws(#[trigger] sql[k]))
            && sql.subrange(j, j + 5) == "LIMIT"@
}

/// `sql` sorts then limits, shown by the place `i` of the clause `order`
/// and the place `j` of `LIMIT`.
pub proof fn lemma_sorts_then_limits(sql: Seq<char>, order: Seq<char>, i: int, j: int)
    requires
        0 <= i,
        i + order.len() <= j,
        j + 5 <= sql.len(),
        sql.subrange(i, i + order.len()) =~= order,
        forall|k: int| i + order.len() <= k < j ==> is_ws(#[trigger] sql[k]),
        sql.subrange(j, j + 5) =~= "LIMIT"@,
    ensures
        sorts_then_limits(sql, order),
{
}

/// Runs one statement with positional arguments, and gives the call made:
/// the statement, its arguments and the count of changed rows (which depends
/// on the database) or the failure.
pub fn execute_traced(conn: &rusqlite::Connection, sql: &str, args: &Vec<SqlValue>) -> (r: (
    std::result::Result<usize, rusqlite::Error>,
    Ghost<Call>,
))
    ensures
        hands(r.1@, sql@, args@),
        r.1@.reply == match r.0 {
            Ok(n) => Reply::Changed(n),
            Err(_) => Reply::Failed,
        },
{
    let res = execute_params(conn, sql, sql_params(args));
    let ghost call = Call {
        sql: sql@,
        args: args@,
        reply: match res {
            Ok(n) => Reply::Changed(n),
            Err(_) => Reply::Failed,
        },
    };
    (res, Ghost(call))
}

/// Runs one statement with positional arguments; the count of changed rows
/// depends on the database.
pub fn execute(conn: &rusqlite::Connection, sql: &str, args: &Vec<SqlValue>) -> std::result::Result<
    usize,
    rusqlite::Error,
> {
    let (res, _) = execute_traced(conn, sql, args);
    res
}

/// Runs a query with positional arguments (`prepare`, `query` with
/// `params_from_iter`) and reads the first `ncols` columns of every row it
/// returns, in order (`Rows::next`, `Row::get`). The number of rows is not
/// known before the last is read, so the rows are read here. Which rows come
/// back depends on the database; each holds `ncols` cells.
#[verifier::external_body]
fn query_values(
    conn: &rusqlite::Connection,
    sql: &str,
    params: Vec<rusqlite::types::Value>,
    ncols: usize,
) -> (r: std::result::Result<Vec<Vec<rusqlite::types::Value>>, rusqlite::Error>)
    ensures
        r matches Ok(rows) ==> forall|i: int| 0 <= i < rows@.len() ==> (#[trigger] rows@[i])@.len() == ncols,
{
    let mut stmt = conn.prepare(sql)?;
    let mut rows = stmt.query(rusqlite::params_from_iter(params))?;
    let mut out = Vec::new();
    while let Some(row) = rows.next()? {
        let mut cells = Vec::with_capacity(ncols);
        for i in 0..ncols {
            cells.push(row.get::<usize, rusqlite::types::Value>(i)?);
        }
        out.push(cells);
    }
    Ok(out)
}

/// Runs a query with positional arguments and gives the first `ncols` cells
/// of every row it returns, in order. Which rows come back depends on the
/// database; each holds `ncols` cells.
pub fn query_rows(
    conn: &rusqlite::Connection,
    sql: &str,
    args: &Vec<SqlValue>,
    ncols: usize,
) -> (r: std::result::Result<Vec<Vec<SqlValue>>, rusqlite::Error>)
    ensures
        r matches Ok(rows) ==> forall|i: int| 0 <= i < rows@.len() ==> (#[trigger] rows@[i])@.len() == ncols,
{
    let raw = query_values(conn, sql, sql_params(args), ncols)?;
    let mut out: Vec<Vec<SqlValue>> = Vec::new();
    let mut i: usize = 0;
    while i < raw.len()
        invariant
            i <= raw@.len(),
            out@.len() == i,
            forall|k: int| 0 <= k < raw@.len() ==> (#[trigger] raw@[k])@.len() == ncols,
            forall|k: int| 0 <= k < i ==> (#[trigger] out@[k])@.len() == ncols,
        decreases raw@.len() - i,
    {
        let row = &raw[i];
        let mut cells: Vec<SqlValue> = Vec::new();
        let mut j: usize = 0;
        while j < row.len()
            invariant
                j <= row@.len(),
                cells@.len() == j,
            decreases row@.len() - j,
        {
            cells.push(sql_cell(&row[j]));
            j = j + 1;
        }
        let ghost before = out@;
        out.push(cells);
        assert forall|k: int| 0 <= k < i + 1 implies (#[trigger] out@[k])@.len() == ncols by {
            if k < i {
                assert(out@[k] == before[k]);
            }
        }
        i = i + 1;
    }
    Ok(out)
}

/// Runs a query as `query_rows` does, and gives the call made: the
/// statement, its arguments and the rows returned (which depend on the
/// database) or the failure.
pub fn query_traced(
    conn: &rusqlite::Connection,
    sql: &str,
    args: &Vec<SqlValue>,
    ncols: usize,
) -> (r: (std::result::Result<Vec<Vec<SqlValue>>, rusqlite::Error>, Ghost<Call>))
    ensures
        hands(r.1@, sql@, args@),
        r.1@.reply == match r.0 {
            Ok(rows) => Reply::Rows(cells_of(rows@)),
            Err(_) => Reply::Failed,
        },
        r.0 matches Ok(rows) ==> forall|i: int| 0 <= i < rows@.len() ==> (#[trigger] rows@[i])@.len() == ncols,
{
    let res = query_rows(conn, sql, args, ncols);
    let ghost call = Call {
        sql: sql@,
        args: args@,
        reply: match &res {
            Ok(rows) => Reply::Rows(cells_of(rows@)),
            Err(_) => Reply::Failed,
        },
    };
    (res, Ghost(call))
}

/// The error rusqlite gives when a column holds a value of another type than
/// the one asked for (`Error::InvalidColumnType`, with the stored type).
#[verifier::external_body]
pub fn invalid_column_type(idx: usize, found: &SqlValue) -> rusqlite::Error {
    let ty = match found {
        SqlValue::Null => rusqlite::types::Type::Null,
        SqlValue::Integer(_) => rusqlite::types::Type::Integer,
        SqlValue::Real(_) => rusqlite::types::Type::Real,
        SqlValue::Text(_) => rusqlite::types::Type::Text,
        SqlValue::Blob(_) => rusqlite::types::Type::Blob,
    };
    rusqlite::Error::InvalidColumnType(idx, String::new(), ty)
}

/// The error rusqlite gives when a query that must return a row returns none
/// (`Error::QueryReturnedNoRows`).
#[verifier::external_body]
pub fn query_returned_no_rows() -> rusqlite::Error {
    rusqlite::Error::QueryReturnedNoRows
}

/// The error rusqlite gives when an integer does not fit the type asked for
/// (`Error::IntegralValueOutOfRange`).
#[verifier::external_body]
pub fn integral_out_of_range(idx: usize, value: i64) -> rusqlite::Error {
    rusqlite::Error::IntegralValueOutOfRange(idx, value)
}

/// The text a cell holds, empty for other cells.
pub open spec fn text_of(v: SqlValue) -> Seq<char> {
    match v {
        SqlValue::Text(s) => s@,
        _ => Seq::empty(),
    }
}

/// A text argument.
pub fn text_arg(s: &str) -> (r: SqlValue)
    ensures
        r matches SqlValue::Text(t) && t@ == s@,
{
    SqlValue::Text(String::from_str(s))
}

/// `v` is the argument holding the text `s`.
pub open spec fn is_text(v: SqlValue, s: Seq<char>) -> bool {
    v matches SqlValue::Text(t) && t@ == s
}

/// `v` is the argument holding the bytes `b`.
pub open spec fn is_blob(v: SqlValue, b: Seq<u8>) -> bool {
    v matches SqlValue::Blob(x) && x@ == b
}

/// `v` is the `LIMIT` argument for `limit`: the count converted as `as i64`
/// converts (a count beyond `i64::MAX` turns negative, which SQLite reads
/// as no limit).
pub open spec fn is_limit(v: SqlValue, limit: usize) -> bool {
    v == SqlValue::Integer(limit as i64)
}

/// `args` are the arguments of a statement keyed by the one text `key`.
pub open spec fn key_row(args: Seq<SqlValue>, key: Seq<char>) -> bool {
    args.len() == 1 && is_text(args[0], key)
}

/// The `LIMIT` argument for `limit`.
pub fn limit_arg(limit: usize) -> (r: SqlValue)
    ensures
        is_limit(r, limit),
{
    #[verifier::truncate]
    let lim = limit as i64;
    SqlValue::Integer(lim)
}

/// The bytes argument `b`.
pub fn blob_arg(b: &Vec<u8>) -> (r: SqlValue)
    ensures
        is_blob(r, b@),
{
    SqlValue::Blob(b.clone())
}

/// The arguments of a statement keyed by one text: `[key]`.
pub fn key_args(key: &str) -> (r: Vec<SqlValue>)
    ensures
        r@.len() == 1,
        is_text(r@[0], key@),
        key_row(r@, key@),
{
    let mut v: Vec<SqlValue> = Vec::new();
    v.push(text_arg(key));
    v
}

/// The arguments `[key, limit]`.
pub fn key_limit_args(key: &str, limit: usize) -> (r: Vec<SqlValue>)
    ensures
        r@.len() == 2,
        is_text(r@[0], key@),
        is_limit(r@[1], limit),
{
    let mut v: Vec<SqlValue> = Vec::new();
    v.push(text_arg(key));
    v.push(limit_arg(limit));
    v
}

/// The arguments `[limit]`.
pub fn limit_args(limit: usize) -> (r: Vec<SqlValue>)
    ensures
        r@.len() == 1,
        is_limit(r@[0], limit),
{
    let mut v: Vec<SqlValue> = Vec::new();
    v.push(limit_arg(limit));
    v
}

/// The arguments `[bytes, limit]`.
pub fn blob_limit_args(b: &Vec<u8>, limit: usize) -> (r: Vec<SqlValue>)
    ensures
        r@.len() == 2,
        is_blob(r@[0], b@),
        is_limit(r@[1], limit),
{
    let mut v: Vec<SqlValue> = Vec::new();
    v.push(blob_arg(b));
    v.push(limit_arg(limit));
    v
}

/// The arguments `[key, bytes, limit]`.
pub fn key_blob_limit_args(key: &str, b: &Vec<u8>, limit: usize) -> (r: Vec<SqlValue>)
    ensures
        r@.len() == 3,
        is_text(r@[0], key@),
        is_blob(r@[1], b@),
        is_limit(r@[2], limit),
{
    let mut v: Vec<SqlValue> = Vec::new();
    v.push(text_arg(key));
    v.push(blob_arg(b));
    v.push(limit_arg(limit));
    v
}

/// The arguments `[key, bytes]`.
pub fn key_blob_args(key: &str, b: &Vec<u8>) -> (r: Vec<SqlValue>)
    ensures
        r@.len() == 2,
        is_text(r@[0], key@),
        is_blob(r@[1], b@),
{
    let mut v: Vec<SqlValue> = Vec::new();
    v.push(text_arg(key));
    v.push(blob_arg(b));
    v
}

/// The arguments `[key, text]`.
pub fn key_text_args(key: &str, text: &str) -> (r: Vec<SqlValue>)
    ensures
        r@.len() == 2,
        is_text(r@[0], key@),
        is_text(r@[1], text@),
{
    let mut v: Vec<SqlValue> = Vec::new();
    v.push(text_arg(key));
    v.push(text_arg(text));
    v
}

/// The text in column `idx`.
pub fn cell_text(row: &Vec<SqlValue>, idx: usize) -> (r: Result<String>)
    requires
        idx < row@.len(),
    ensures
        match row@[idx as int] {
            SqlValue::Text(s) => r matches Ok(t) && t@ == s@,
            _ => r matches Err(AmpError::Storage(_)),
        },
{
    match &row[idx] {
        SqlValue::Text(s) => Ok(s.clone()),
        other => Err(AmpError::Storage(invalid_column_type(idx, other))),
    }
}

/// The text in column `idx`, `None` where the column is NULL.
pub fn cell_opt_text(row: &Vec<SqlValue>, idx: usize) -> (r: Result<Option<String>>)
    requires
        idx < row@.len(),
    ensures
        match row@[idx as int] {
            SqlValue::Text(s) => r matches Ok(Some(t)) && t@ == s@,
            SqlValue::Null => r matches Ok(None),
            _ => r matches Err(AmpError::Storage(_)),
        },
{
    match &row[idx] {
        SqlValue::Text(s) => Ok(Some(s.clone())),
        SqlValue::Null => Ok(None),
        other => Err(AmpError::Storage(invalid_column_type(idx, other))),
    }
}

/// The integer in column `idx`.
pub fn cell_int(row: &Vec<SqlValue>, idx: usize) -> (r: Result<i64>)
    requires
        idx < row@.len(),
    ensures
        match row@[idx as int] {
            SqlValue::Integer(n) => r == Ok::<i64, AmpError>(n),
            _ => r matches Err(AmpError::Storage(_)),
        },
{
    match &row[idx] {
        SqlValue::Integer(n) => Ok(*n),
        other => Err(AmpError::Storage(invalid_column_type(idx, other))),
    }
}

/// The number a cell holds, where it holds an integer or a floating-point
/// value.
pub open spec fn number_of(v: SqlValue) -> Option<SqlNumber> {
    match v {
        SqlValue::Integer(n) => Some(SqlNumber::Integer(n)),
        SqlValue::Real(b) => Some(SqlNumber::Real(b)),
        _ => None,
    }
}

/// The number in column `idx`, for a cell holding an integer or a
/// floating-point value.
pub fn cell_number(row: &Vec<SqlValue>, idx: usize) -> (r: Result<SqlNumber>)
    requires
        idx < row@.len(),
    ensures
        match number_of(row@[idx as int]) {
            Some(n) => r == Ok::<SqlNumber, AmpError>(n),
            None => r matches Err(AmpError::Storage(_)),
        },
{
    match &row[idx] {
        SqlValue::Integer(n) => Ok(SqlNumber::Integer(*n)),
        SqlValue::Real(b) => Ok(SqlNumber::Real(*b)),
        other => Err(AmpError::Storage(invalid_column_type(idx, other))),
    }
}

/// The texts in the first column of every row, in order.
pub fn texts_from_rows(rows: &Vec<Vec<SqlValue>>) -> (r: Result<Vec<String>>)
    requires
        forall|i: int| 0 <= i < rows@.len() ==> (#[trigger] rows@[i])@.len() >= 1,
    ensures
        match r {
            Ok(v) => {
                &&& v@.len() == rows@.len()
                &&& forall|i: int| 0 <= i < v@.len() ==> rows@[i]@[0] is Text
                &&& forall|i: int| 0 <= i < v@.len() ==> (#[trigger] v@[i])@ == text_of(rows@[i]@[0])
            },
            Err(e) => e is Storage && exists|i: int|
                0 <= i < rows@.len() && !((#[trigger] rows@[i])@[0] is Text),
        },
{
    let mut out: Vec<String> = Vec::new();
    let mut i: usize = 0;
    while i < rows.len()
        invariant
            i <= rows@.len(),
            forall|k: int| 0 <= k < rows@.len() ==> (#[trigger] rows@[k])@.len() >= 1,
            out@.len() == i,
            forall|k: int| 0 <= k < i ==> (#[trigger] rows@[k])@[0] is Text,
            forall|k: int| 0 <= k < i ==> (#[trigger] out@[k])@ == text_of(rows@[k]@[0]),
        decreases rows@.len() - i,
    {
        let t = match cell_text(&rows[i], 0) {
            Ok(t) => t,
            Err(e) => {
                assert(!(rows@[i as int]@[0] is Text));
                return Err(e);
            },
        };
        let ghost before = out@;
        out.push(t);
        proof {
            assert forall|k: int| 0 <= k < i + 1 implies (#[trigger] out@[k])@ == text_of(
                rows@[k]@[0],
            ) by {
                if k < i {
                    assert(out@[k] == before[k]);
                }
            }
        }
        i = i + 1;
    }
    Ok(out)
}

/// The non-negative integer in column `idx`, as a count.
pub fn cell_count(row: &Vec<SqlValue>, idx: usize) -> (r: Result<usize>)
    requires
        idx < row@.len(),
    ensures
        match row@[idx as int] {
            SqlValue::Integer(n) => if 0 <= n <= usize::MAX {
                r == Ok::<usize, AmpError>(n as usize)
            } else {
                r matches Err(AmpError::Storage(_))
            },
            _ => r matches Err(AmpError::Storage(_)),
        },
{
    let n = cell_int(row, idx)?;
    if n < 0 || n as u64 > usize::MAX as u64 {
        return Err(AmpError::Storage(integral_out_of_range(idx, n)));
    }
    Ok(n as usize)
}

} // verus!
