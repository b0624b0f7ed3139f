//! The answers of the health and status endpoints.
use crate::clock::{elapsed_nanos, now_utc, Timestamp};
use crate::lessons::storage::count_from_rows;
use crate::sql::{open_default_connection, query_rows, SqlValue};
use std::sync::Arc;
use vstd::prelude::*;

verus! {

broadcast use vstd::string::group_string_axioms;

/// The version of this package.
pub const VERSION: &'static str = "0.1.0";

/// Answer of the health check.
#[derive(Debug, Clone)]
pub struct HealthResponse {
    pub status: String,
    pub version: String,
}

/// Answer of the status endpoint.
#[derive(Debug, Clone)]
pub struct StatusResponse {
    pub status: String,
    pub version: String,
    pub lessons_count: usize,
    pub checkpoints_count: usize,
    pub chunks_count: usize,
    pub uptime_seconds: u64,
}

/// Application state shared across HTTP handlers.
#[derive(Clone)]
pub struct AppState {
    /// Path of the database, opened afresh by each status request.
    pub db_path: Arc<String>,
    /// When the server started.
    pub start_time: Timestamp,
}

/// The health check answers `ok` with the package version.
pub fn health_check() -> (r: HealthResponse)
    ensures
        r.status@ == seq!['o', 'k'],
        r.version@ == VERSION@,
{
    proof {
        reveal_strlit("ok");
    }
    HealthResponse { status: String::from_str("ok"), version: String::from_str(VERSION) }
}

/// Whole seconds from `start` to `now`, 0 where `now` comes before `start`
/// (capped at `u64::MAX`, which no real clock reaches).
pub open spec fn spec_uptime(start: Timestamp, now: Timestamp) -> int {
    let e = elapsed_nanos(now, start);
    if e < 0 {
        0
    } else if e / 1_000_000_000 > u64::MAX {
        u64::MAX as int
    } else {
        e / 1_000_000_000
    }
}

/// Seconds of uptime for a server started at `start`, at `now`.
pub fn uptime_secs(start: Timestamp, now: Timestamp) -> (r: u64)
    ensures
        r == spec_uptime(start, now),
{
    let ds: i128 = now.secs as i128 - start.secs as i128;
    let dn: i128 = now.nanos as i128 - start.nanos as i128;
    let e: i128 = ds * 1_000_000_000 + dn;
    if e < 0 {
        return 0;
    }
    let s: i128 = e / 1_000_000_000;
    if s > u64::MAX as i128 {
        u64::MAX
    } else {
        s as u64
    }
}

/// The status answer for the given counts and uptime.
pub fn status_response(
    lessons_count: usize,
    checkpoints_count: usize,
    chunks_count: usize,
    uptime_seconds: u64,
) -> (r: StatusResponse)
    ensures
        r.status@ == seq!['o', 'k'],
        r.version@ == VERSION@,
        r.lessons_count == lessons_count,
        r.checkpoints_count == checkpoints_count,
        r.chunks_count == chunks_count,
        r.uptime_seconds == uptime_seconds,
{
    proof {
        reveal_strlit("ok");
    }
    StatusResponse {
        status: String::from_str("ok"),
        version: String::from_str(VERSION),
        lessons_count,
        checkpoints_count,
        chunks_count,
        uptime_seconds,
    }
}

/// The count that the rows of a `COUNT(*)` query give: the integer in the
/// first cell of the first row, converted as `as usize` converts; 0 without
/// rows (where the query failed) or where that cell holds no integer.
pub open spec fn spec_count_or_zero(rows: Option<Seq<Seq<SqlValue>>>) -> usize {
    match rows {
        Some(r) => if r.len() > 0 && r[0].len() > 0 {
            match r[0][0] {
                SqlValue::Integer(c) => c as usize,
                _ => 0,
            }
        } else {
            0
        },
        None => 0,
    }
}

/// The count the rows of a `COUNT(*)` query give, see `spec_count_or_zero`.
pub fn count_or_zero(rows: Option<&Vec<Vec<SqlValue>>>) -> (r: usize)
    requires
        rows matches Some(v) ==> forall|i: int| 0 <= i < v@.len() ==> (#[trigger] v@[i])@.len() >= 1,
    ensures
        r == spec_count_or_zero(rows_view(rows)),
{
    match rows {
        Some(v) => match count_from_rows(v) {
            Ok(n) => n,
            Err(_) => 0,
        },
        None => 0,
    }
}

/// The cells of optional rows.
pub open spec fn rows_view(rows: Option<&Vec<Vec<SqlValue>>>) -> Option<Seq<Seq<SqlValue>>> {
    match rows {
        Some(v) => Some(v@.map_values(|row: Vec<SqlValue>| row@)),
        None => None,
    }
}

/// The count a `COUNT(*)` query `sql` gives on `conn`, 0 where it fails.
fn query_count(conn: &rusqlite::Connection, sql: &str) -> usize {
    let args: Vec<SqlValue> = Vec::new();
    match query_rows(conn, sql, &args, 1) {
        Ok(rows) => count_or_zero(Some(&rows)),
        Err(_) => count_or_zero(None),
    }
}

/// The status answer at `now` for a server started at `start_time`, with
/// the counts read from `conn`: the numbers of lessons, checkpoints and code
/// chunks (each 0 where it cannot be read), and all 0 without a database.
pub fn status_with(conn: Option<&rusqlite::Connection>, start_time: Timestamp, now: Timestamp) -> (r:
    StatusResponse)
    ensures
        r.status@ == seq!['o', 'k'],
        r.version@ == VERSION@,
        r.uptime_seconds == spec_uptime(start_time, now),
        conn is None ==> r.lessons_count == 0 && r.checkpoints_count == 0 && r.chunks_count == 0,
{
    let (lessons_count, checkpoints_count, chunks_count) = match conn {
        Some(c) => (
            query_count(c, "SELECT COUNT(*) FROM lessons"),
            query_count(c, "SELECT COUNT(*) FROM checkpoints"),
            query_count(c, "SELECT COUNT(*) FROM code_chunks"),
        ),
        None => (0, 0, 0),
    };
    let uptime = uptime_secs(start_time, now);
    status_response(lessons_count, checkpoints_count, chunks_count, uptime)
}

/// The status of the server: `status_with` the database at `state.db_path`
/// (none where it cannot be opened) at the time the clock reads.
pub fn server_status(state: &AppState) -> (r: StatusResponse)
    ensures
        r.status@ == seq!['o', 'k'],
        r.version@ == VERSION@,
        exists|now: Timestamp| r.uptime_seconds == spec_uptime(state.start_time, now),
{
    let now = now_utc();
    match open_default_connection(state.db_path.as_str()) {
        Ok(conn) => status_with(Some(&conn), state.start_time, now),
        Err(_) => status_with(None, state.start_time, now),
    }
}

} // verus!
