//! Storing checkpoints in the database, and the status of agents.
use super::{AgentState, AgentStatus, Checkpoint};
use crate::clock::{
    elapsed_nanos, format_rfc3339, nanos_between, now_utc, rfc3339_year, spec_parse_rfc3339,
    spec_rfc3339, Timestamp, NANOS_PER_HOUR,
};
use crate::error::{AmpError, Result};
use crate::ids::new_uuid_v4;
use crate::json::{empty_json_object, value_from_json, value_to_json};
use crate::lessons::storage::{first_of, stored_time_is};
use crate::sql::{
    cell_count, cell_number, cell_text, number_of, query_returned_no_rows, query_rows,
    blob_limit_args, execute_traced, is_blob, is_text, key_args, key_blob_args, key_blob_limit_args,
    is_limit, key_limit_args, lemma_sorts_then_limits, query_traced, sorts_then_limits, text_of,
    texts_from_rows, cells_of, Call, Reply, SqlNumber, SqlValue,
};
use vstd::prelude::*;

verus! {

broadcast use vstd::string::group_string_axioms;

/// An agent whose latest checkpoint is older than this many hours is idle.
pub const IDLE_THRESHOLD_HOURS: i64 = 1;

/// The columns a checkpoint is read from, in order.
pub const CHECKPOINT_COLUMNS: usize = 5;

/// The five cells a checkpoint is read from hold text.
pub open spec fn checkpoint_cells(row: Seq<SqlValue>) -> bool {
    &&& row.len() >= 5
    &&& row[0] is Text
    &&& row[1] is Text
    &&& row[2] is Text
    &&& row[3] is Text
    &&& row[4] is Text
}

/// `c` is the checkpoint a row of text cells (id, agent, working on, state,
/// created) stands for: its state is the JSON the state cell holds, an empty
/// object where that is not JSON, and a time that is not RFC 3339 reads as
/// the time of reading.
pub open spec fn checkpoint_of_row(row: Seq<SqlValue>, c: Checkpoint) -> bool {
    &&& c.id@ == text_of(row[0])
    &&& c.agent@ == text_of(row[1])
    &&& c.working_on@ == text_of(row[2])
    &&& stored_time_is(text_of(row[4]), c.created_at)
}

/// `c` is what some row of the checkpoints table stands for.
pub open spec fn read_checkpoint(c: Checkpoint) -> bool {
    exists|row: Seq<SqlValue>| checkpoint_cells(row) && #[trigger] checkpoint_of_row(row, c)
}

/// The checkpoint a row of the checkpoints table stands for.
pub fn checkpoint_from_row(row: &Vec<SqlValue>) -> (r: Result<Checkpoint>)
    requires
        row@.len() >= CHECKPOINT_COLUMNS,
    ensures
        match r {
            Ok(c) => checkpoint_cells(row@) && checkpoint_of_row(row@, c),
            Err(e) => !checkpoint_cells(row@) && e is Storage,
        },
{
    let state_str = cell_text(row, 3)?;
    let created_str = cell_text(row, 4)?;
    let id = cell_text(row, 0)?;
    let agent = cell_text(row, 1)?;
    let working_on = cell_text(row, 2)?;
    let state = match value_from_json(state_str.as_str()) {
        Some(v) => v,
        None => empty_json_object(),
    };
    let created_at = match crate::clock::parse_rfc3339(created_str.as_str()) {
        Some(t) => t,
        None => now_utc(),
    };
    Ok(Checkpoint { id, agent, working_on, state, created_at })
}

/// The checkpoints the rows of a query stand for, in order.
pub fn checkpoints_from_rows(rows: &Vec<Vec<SqlValue>>) -> (r: Result<Vec<Checkpoint>>)
    requires
        forall|i: int| 0 <= i < rows@.len() ==> (#[trigger] rows@[i])@.len() >= CHECKPOINT_COLUMNS,
    ensures
        match r {
            Ok(v) => {
                &&& v@.len() == rows@.len()
                &&& forall|i: int| 0 <= i < v@.len() ==> checkpoint_cells(#[trigger] rows@[i]@)
                &&& forall|i: int|
                    0 <= i < v@.len() ==> checkpoint_of_row(rows@[i]@, #[trigger] v@[i])
            },
            Err(e) => e is Storage && exists|i: int|
                0 <= i < rows@.len() && !checkpoint_cells(#[trigger] rows@[i]@),
        },
{
    let mut out: Vec<Checkpoint> = Vec::new();
    let mut i: usize = 0;
    while i < rows.len()
        invariant
            i <= rows@.len(),
            forall|k: int| 0 <= k < rows@.len() ==> (#[trigger] rows@[k])@.len() >= CHECKPOINT_COLUMNS,
            out@.len() == i,
            forall|k: int| 0 <= k < i ==> checkpoint_cells(#[trigger] rows@[k]@),
            forall|k: int| 0 <= k < i ==> checkpoint_of_row(rows@[k]@, #[trigger] out@[k]),
        decreases rows@.len() - i,
    {
        let c = match checkpoint_from_row(&rows[i]) {
            Ok(c) => c,
            Err(e) => {
                assert(!checkpoint_cells(rows@[i as int]@));
                return Err(e);
            },
        };
        let ghost before = out@;
        out.push(c);
        proof {
            assert forall|k: int| 0 <= k < i + 1 implies checkpoint_of_row(
                rows@[k]@,
                #[trigger] out@[k],
            ) by {
                if k < i {
                    assert(out@[k] == before[k]);
                }
            }
        }
        i = i + 1;
    }
    Ok(out)
}

/// `row` holds the cells that store checkpoint `c` with its state written as
/// `state_json`, in the order of the checkpoints columns: identifier, agent,
/// task, state, and creation time as RFC 3339 text.
pub open spec fn checkpoint_row_of(row: Seq<SqlValue>, c: Checkpoint, state_json: Seq<char>) -> bool {
    &&& checkpoint_cells(row)
    &&& row.len() == 5
    &&& text_of(row[0]) == c.id@
    &&& text_of(row[1]) == c.agent@
    &&& text_of(row[2]) == c.working_on@
    &&& text_of(row[3]) == state_json
    &&& spec_rfc3339(c.created_at.secs, c.created_at.nanos) == Some(text_of(row[4]))
}

/// The cells that store checkpoint `c` with its state written as
/// `state_json`, or `None` where its time has no RFC 3339 text. Read back,
/// they give the same identifier, agent, task and time when the time falls
/// in the years 0 to 9999.
pub fn checkpoint_insert_args(c: &Checkpoint, state_json: String) -> (r: Option<Vec<SqlValue>>)
    ensures
        match r {
            Some(row) => {
                &&& checkpoint_row_of(row@, *c, state_json@)
                &&& rfc3339_year(c.created_at) ==> checkpoint_of_row(row@, *c) && spec_parse_rfc3339(
                    text_of(row@[4]),
                ) is Some
            },
            None => spec_rfc3339(c.created_at.secs, c.created_at.nanos) is None,
        },
{
    let created = format_rfc3339(c.created_at)?;
    let mut row: Vec<SqlValue> = Vec::new();
    row.push(SqlValue::Text(c.id.clone()));
    row.push(SqlValue::Text(c.agent.clone()));
    row.push(SqlValue::Text(c.working_on.clone()));
    row.push(SqlValue::Text(state_json));
    row.push(SqlValue::Text(created));
    Some(row)
}

/// A checkpoint read back from the row written for a checkpoint has its
/// identifier, agent, task and time: a row that stands for the checkpoint
/// written (as the row of `checkpoint_insert_args` does) and whose time can
/// be read stands for no other.
pub proof fn lemma_checkpoint_read_after_write(row: Seq<SqlValue>, written: Checkpoint, read: Checkpoint)
    requires
        checkpoint_of_row(row, written),
        spec_parse_rfc3339(text_of(row[4])) is Some,
        checkpoint_of_row(row, read),
    ensures
        read.id@ == written.id@,
        read.agent@ == written.agent@,
        read.working_on@ == written.working_on@,
        read.created_at == written.created_at,
{
}

/// The columns a checkpoint found by a search is read from: the
/// checkpoint's, then its distance to the query.
pub const CHECKPOINT_MATCH_COLUMNS: usize = 6;

/// `(c, d)` is the checkpoint and distance that a row of a search stands for.
pub open spec fn checkpoint_match_of_row(row: Seq<SqlValue>, c: Checkpoint, d: SqlNumber) -> bool {
    &&& checkpoint_cells(row)
    &&& checkpoint_of_row(row, c)
    &&& number_of(row[5]) == Some(d)
}

/// `(c, d)` is what some row of a checkpoint search stands for.
pub open spec fn read_checkpoint_match(c: Checkpoint, d: SqlNumber) -> bool {
    exists|row: Seq<SqlValue>| row.len() >= 6 && #[trigger] checkpoint_match_of_row(row, c, d)
}

/// The checkpoint and distance a row of a checkpoint search stands for.
pub fn checkpoint_match_from_row(row: &Vec<SqlValue>) -> (r: Result<(Checkpoint, SqlNumber)>)
    requires
        row@.len() >= CHECKPOINT_MATCH_COLUMNS,
    ensures
        match r {
            Ok((c, d)) => checkpoint_match_of_row(row@, c, d),
            Err(e) => e is Storage && (!checkpoint_cells(row@) || number_of(row@[5]) is None),
        },
{
    let checkpoint = checkpoint_from_row(row)?;
    let distance = cell_number(row, 5)?;
    Ok((checkpoint, distance))
}

/// The checkpoints and distances the rows of a search stand for, in order.
pub fn checkpoint_matches_from_rows(rows: &Vec<Vec<SqlValue>>) -> (r: Result<
    Vec<(Checkpoint, SqlNumber)>,
>)
    requires
        forall|i: int|
            0 <= i < rows@.len() ==> (#[trigger] rows@[i])@.len() >= CHECKPOINT_MATCH_COLUMNS,
    ensures
        match r {
            Ok(v) => {
                &&& v@.len() == rows@.len()
                &&& forall|i: int|
                    0 <= i < v@.len() ==> checkpoint_match_of_row(
                        rows@[i]@,
                        (#[trigger] v@[i]).0,
                        v@[i].1,
                    )
            },
            Err(e) => e is Storage && exists|i: int|
                0 <= i < rows@.len() && (!checkpoint_cells(#[trigger] rows@[i]@) || number_of(
                    rows@[i]@[5],
                ) is None),
        },
{
    let mut out: Vec<(Checkpoint, SqlNumber)> = Vec::new();
    let mut i: usize = 0;
    while i < rows.len()
        invariant
            i <= rows@.len(),
            forall|k: int|
                0 <= k < rows@.len() ==> (#[trigger] rows@[k])@.len() >= CHECKPOINT_MATCH_COLUMNS,
            out@.len() == i,
            forall|k: int|
                0 <= k < i ==> checkpoint_match_of_row(rows@[k]@, (#[trigger] out@[k]).0, out@[k].1),
        decreases rows@.len() - i,
    {
        let m = match checkpoint_match_from_row(&rows[i]) {
            Ok(m) => m,
            Err(e) => {
                assert(!checkpoint_cells(rows@[i as int]@) || number_of(rows@[i as int]@[5]) is None);
                return Err(e);
            },
        };
        let ghost before = out@;
        out.push(m);
        proof {
            assert forall|k: int| 0 <= k < i + 1 implies checkpoint_match_of_row(
                rows@[k]@,
                (#[trigger] out@[k]).0,
                out@[k].1,
            ) by {
                if k < i {
                    assert(out@[k] == before[k]);
                }
            }
        }
        i = i + 1;
    }
    Ok(out)
}

/// A checkpoint is one of `agent`.
pub open spec fn of_agent(agent: Seq<char>) -> spec_fn(Checkpoint) -> bool {
    |c: Checkpoint| c.agent@ == agent
}

/// The checkpoints of `agent` among `v`, in order, at most `limit` of them.
pub fn keep_agent_checkpoints(v: Vec<Checkpoint>, agent: &str, limit: usize) -> (r: Vec<Checkpoint>)
    ensures
        r@ == first_of(v@.filter(of_agent(agent@)), limit),
        r@.len() <= limit,
        forall|i: int|
            0 <= i < r@.len() ==> (#[trigger] r@[i]).agent@ == agent@ && v@.contains(r@[i]),
{
    let ghost all = v@;
    let mut out: Vec<Checkpoint> = Vec::new();
    for c in it: v.into_iter()
        invariant
            it.seq() == all,
            out@ == all.take(it.index()).filter(of_agent(agent@)),
            forall|k: int|
                0 <= k < out@.len() ==> (#[trigger] out@[k]).agent@ == agent@ && all.contains(out@[k]),
    {
        let ghost i = it.index();
        proof {
            assert(all.take(i + 1).drop_last() =~= all.take(i));
            reveal(Seq::filter);
        }
        if crate::text::str_eq(c.agent.as_str(), agent) {
            let ghost before = out@;
            out.push(c);
            proof {
                assert(all[i] == c);
                assert forall|k: int| 0 <= k < out@.len() implies (#[trigger] out@[k]).agent@
                    == agent@ && all.contains(out@[k]) by {
                    if k < before.len() {
                        assert(out@[k] == before[k]);
                    }
                }
            }
        }
    }
    assert(all.take(all.len() as int) =~= all);
    let ghost full = out@;
    out.truncate(limit);
    assert forall|i: int| 0 <= i < out@.len() implies (#[trigger] out@[i]).agent@ == agent@
        && all.contains(out@[i]) by {
        assert(out@[i] == full[i]);
    }
    out
}

/// The agent a search is narrowed to, if any.
pub open spec fn filter_view(agent_filter: Option<&str>) -> Option<Seq<char>> {
    match agent_filter {
        Some(a) => Some(a@),
        None => None,
    }
}

/// A search result is one of the agent searched for, if one is given.
pub open spec fn match_of_agent(agent: Option<Seq<char>>) -> spec_fn((Checkpoint, SqlNumber)) -> bool {
    |m: (Checkpoint, SqlNumber)| agent matches Some(a) ==> m.0.agent@ == a
}

/// The search results among `v` that belong to `agent_filter`'s agent (all
/// of them without a filter), in order, at most `limit` of them.
pub fn keep_agent_matches(v: Vec<(Checkpoint, SqlNumber)>, agent_filter: Option<&str>, limit: usize) -> (r: Vec<
    (Checkpoint, SqlNumber),
>)
    ensures
        r@ == first_of(v@.filter(match_of_agent(filter_view(agent_filter))), limit),
        r@.len() <= limit,
        forall|i: int|
            0 <= i < r@.len() ==> v@.contains(#[trigger] r@[i]) && (agent_filter matches Some(a)
                ==> r@[i].0.agent@ == a@),
{
    let ghost all = v@;
    let ghost p = match_of_agent(filter_view(agent_filter));
    let mut out: Vec<(Checkpoint, SqlNumber)> = Vec::new();
    for m in it: v.into_iter()
        invariant
            it.seq() == all,
            p == match_of_agent(filter_view(agent_filter)),
            out@ == all.take(it.index()).filter(p),
            forall|k: int|
                0 <= k < out@.len() ==> all.contains(#[trigger] out@[k]) && (agent_filter matches Some(
                    a,
                ) ==> out@[k].0.agent@ == a@),
    {
        let ghost i = it.index();
        proof {
            assert(all.take(i + 1).drop_last() =~= all.take(i));
            reveal(Seq::filter);
        }
        let keep = match agent_filter {
            Some(a) => crate::text::str_eq(m.0.agent.as_str(), a),
            None => true,
        };
        if keep {
            let ghost before = out@;
            out.push(m);
            proof {
                assert(all[i] == m);
                assert forall|k: int| 0 <= k < out@.len() implies all.contains(#[trigger] out@[k]) && (
                agent_filter matches Some(a) ==> out@[k].0.agent@ == a@) by {
                    if k < before.len() {
                        assert(out@[k] == before[k]);
                    }
                }
            }
        }
    }
    assert(all.take(all.len() as int) =~= all);
    let ghost full = out@;
    out.truncate(limit);
    assert forall|i: int| 0 <= i < out@.len() implies all.contains(#[trigger] out@[i]) && (
    agent_filter matches Some(a) ==> out@[i].0.agent@ == a@) by {
        assert(out@[i] == full[i]);
    }
    out
}

/// More than `IDLE_THRESHOLD_HOURS` hours have passed from `at` to `now`,
/// counted in nanoseconds.
pub open spec fn idle_since(now: Timestamp, at: Timestamp) -> bool {
    elapsed_nanos(now, at) > 3_600_000_000_000 * IDLE_THRESHOLD_HOURS
}

/// The status of `agent` given its number of checkpoints, its latest
/// checkpoint (its task and when it was made) if any, and the time now: idle
/// without checkpoints or when more than `IDLE_THRESHOLD_HOURS` hours
/// have passed since the latest, in progress otherwise.
pub open spec fn spec_agent_status(
    agent: Seq<char>,
    count: usize,
    latest: Option<(Seq<char>, Timestamp)>,
    now: Timestamp,
    s: AgentStatus,
) -> bool {
    &&& s.agent@ == agent
    &&& s.checkpoint_count == count
    &&& match latest {
        Some((task, at)) => {
            &&& s.status == (if idle_since(now, at) {
                AgentState::Idle
            } else {
                AgentState::InProgress
            })
            &&& s.current_task matches Some(t) && t@ == task
            &&& s.last_checkpoint_at == Some(at)
        },
        None => {
            &&& s.status == AgentState::Idle
            &&& s.current_task is None
            &&& s.last_checkpoint_at is None
        },
    }
}

/// The latest checkpoint's task and time.
pub open spec fn latest_of(latest: Option<&Checkpoint>) -> Option<(Seq<char>, Timestamp)> {
    match latest {
        Some(c) => Some((c.working_on@, c.created_at)),
        None => None,
    }
}

/// The latest checkpoint's task and time, for a checkpoint held by value.
pub open spec fn latest_seen(latest: Option<Checkpoint>) -> Option<(Seq<char>, Timestamp)> {
    match latest {
        Some(c) => Some((c.working_on@, c.created_at)),
        None => None,
    }
}

/// `s` is a status of `agent` that its count, a latest checkpoint of
/// `agent` read from the database (if any) and some time of asking give.
pub open spec fn status_read(agent: Seq<char>, s: AgentStatus) -> bool {
    exists|latest: Option<Checkpoint>, now: Timestamp|
        (latest matches Some(c) ==> read_checkpoint(c) && c.agent@ == agent) && #[trigger] spec_agent_status(
            agent,
            s.checkpoint_count,
            latest_seen(latest),
            now,
            s,
        )
}

/// An agent is idle exactly when it has no checkpoint or its latest one is
/// more than `IDLE_THRESHOLD_HOURS` hours old; an agent in progress
/// has a current task, the one of its latest checkpoint.
pub proof fn lemma_agent_state(
    agent: Seq<char>,
    count: usize,
    latest: Option<(Seq<char>, Timestamp)>,
    now: Timestamp,
    s: AgentStatus,
)
    requires
        spec_agent_status(agent, count, latest, now, s),
    ensures
        s.status == AgentState::Idle <==> match latest {
            Some((task, at)) => idle_since(now, at),
            None => true,
        },
        s.status == AgentState::InProgress ==> (latest matches Some((task, at)) && (
        s.current_task matches Some(t) && t@ == task)),
{
}

/// The status of `agent` from its checkpoint count, latest checkpoint and
/// the time now.
pub fn agent_status_from(
    agent: &str,
    checkpoint_count: usize,
    latest: Option<&Checkpoint>,
    now: Timestamp,
) -> (r: AgentStatus)
    ensures
        spec_agent_status(agent@, checkpoint_count, latest_of(latest), now, r),
{
    match latest {
        Some(cp) => {
            let is_idle = nanos_between(now, cp.created_at) > NANOS_PER_HOUR * (
            IDLE_THRESHOLD_HOURS as i128);
            let status = if is_idle {
                AgentState::Idle
            } else {
                AgentState::InProgress
            };
            AgentStatus {
                agent: String::from_str(agent),
                status,
                current_task: Some(cp.working_on.clone()),
                checkpoint_count,
                last_checkpoint_at: Some(cp.created_at),
            }
        },
        None => AgentStatus {
            agent: String::from_str(agent),
            status: AgentState::Idle,
            current_task: None,
            checkpoint_count,
            last_checkpoint_at: None,
        },
    }
}

/// The first of a list of checkpoints, if any.
pub open spec fn first_checkpoint(s: Seq<Checkpoint>) -> Option<Checkpoint> {
    if s.len() > 0 {
        Some(s[0])
    } else {
        None
    }
}

/// The count a `COUNT(*)` query gives, from the first cell of its first
/// row: a non-negative integer that fits a `usize`.
pub fn count_cell(rows: &Vec<Vec<SqlValue>>) -> (r: Result<usize>)
    requires
        forall|i: int| 0 <= i < rows@.len() ==> (#[trigger] rows@[i])@.len() >= 1,
    ensures
        rows@.len() == 0 ==> r matches Err(AmpError::Storage(_)),
        rows@.len() > 0 ==> match rows@[0]@[0] {
            SqlValue::Integer(n) => if 0 <= n <= usize::MAX {
                r == Ok::<usize, AmpError>(n as usize)
            } else {
                r matches Err(AmpError::Storage(_))
            },
            _ => r matches Err(AmpError::Storage(_)),
        },
{
    if rows.len() == 0 {
        return Err(AmpError::Storage(query_returned_no_rows()));
    }
    cell_count(&rows[0], 0)
}

/// The status of `agent` given its checkpoint count, its recent checkpoints
/// newest first (the first, if any, is its latest) and the time now.
pub fn status_from(agent: &str, count: usize, recent: &Vec<Checkpoint>, now: Timestamp) -> (r: AgentStatus)
    ensures
        spec_agent_status(agent@, count, latest_seen(first_checkpoint(recent@)), now, r),
{
    if recent.len() > 0 {
        let s = agent_status_from(agent, count, Some(&recent[0]), now);
        assert(latest_of(Some(&recent[0])) == latest_seen(first_checkpoint(recent@)));
        s
    } else {
        agent_status_from(agent, count, None, now)
    }
}

/// The statement that inserts a checkpoint row.
pub const INSERT_CHECKPOINT_SQL: &'static str = "INSERT INTO checkpoints (id, agent, working_on, state, created_at)
             VALUES (?1, ?2, ?3, ?4, ?5)";

/// The statement that stores a checkpoint's embedding, replacing any earlier one.
pub const INSERT_CHECKPOINT_EMBEDDING_SQL: &'static str = "INSERT OR REPLACE INTO checkpoint_embeddings (id, embedding) VALUES (?1, ?2)";

/// Database operations for checkpoints.
pub struct CheckpointStorage<'a> {
    conn: &'a rusqlite::Connection,
}

impl<'a> CheckpointStorage<'a> {
    /// The connection the store works on.
    pub closed spec fn connection(&self) -> &'a rusqlite::Connection {
        self.conn
    }

    /// A store working on `conn`.
    pub fn new(conn: &'a rusqlite::Connection) -> (r: Self)
        ensures
            r.connection() == conn,
    {
        CheckpointStorage { conn }
    }

    /// Adds a checkpoint with a fresh identifier, made now (see
    /// `add_traced`, which also gives the statement handed to SQLite). On
    /// success the checkpoint holds the given agent, task and state; whether
    /// the insert succeeds depends on the database.
    pub fn add(&self, agent: &str, working_on: &str, state: &serde_json::Value) -> (r: Result<
        Checkpoint,
    >)
        ensures
            r matches Ok(c) ==> {
                &&& c.id@.len() == 36
                &&& c.agent@ == agent@
                &&& c.working_on@ == working_on@
                &&& c.state == *state
            },
    {
        let (r, _) = self.add_traced(agent, working_on, state);
        r
    }

    /// Adds a checkpoint as `add` does, and gives the statement handed to
    /// SQLite: the insert of the row `checkpoint_insert_args` builds for the
    /// checkpoint returned and its state's JSON, which reads back with that
    /// checkpoint's identifier, agent, task and time when its time falls in
    /// the years 0 to 9999. Nothing is handed when the state cannot be
    /// written as JSON.
    pub fn add_traced(&self, agent: &str, working_on: &str, state: &serde_json::Value) -> (r: (
        Result<Checkpoint>,
        Ghost<Seq<Call>>,
    ))
        ensures
            r.1@.len() <= 1,
            r.1@.len() == 1 ==> r.1@[0].sql == INSERT_CHECKPOINT_SQL@,
            r.0 matches Ok(c) ==> {
                &&& c.id@.len() == 36
                &&& c.agent@ == agent@
                &&& c.working_on@ == working_on@
                &&& c.state == *state
                &&& r.1@.len() == 1
                &&& r.1@[0].reply is Changed
                &&& exists|state_json: Seq<char>| checkpoint_row_of(r.1@[0].args, c, state_json)
                &&& rfc3339_year(c.created_at) ==> checkpoint_of_row(r.1@[0].args, c)
                    && spec_parse_rfc3339(text_of(r.1@[0].args[4])) is Some
            },
            r.0 is Err && r.1@.len() == 1 ==> r.1@[0].reply is Failed,
    {
        let id = new_uuid_v4();
        let now = now_utc();
        let state_str = match value_to_json(state) {
            Ok(s) => s,
            Err(e) => {
                let ghost none = Seq::<Call>::empty();
                return (Err(AmpError::Serialization(e)), Ghost(none));
            },
        };
        let checkpoint = Checkpoint {
            id,
            agent: String::from_str(agent),
            working_on: String::from_str(working_on),
            state: state.clone(),
            created_at: now,
        };
        let ghost sj = state_str@;
        let args = match checkpoint_insert_args(&checkpoint, state_str) {
            Some(a) => a,
            None => {
                assert(false);
                Vec::new()
            },
        };
        assert(checkpoint_row_of(args@, checkpoint, sj));
        let (res, call) = execute_traced(self.conn, INSERT_CHECKPOINT_SQL, &args);
        let ghost calls = seq![call@];
        let log: Ghost<Seq<Call>> = Ghost(calls);
        match res {
            Ok(_) => (Ok(checkpoint), log),
            Err(e) => (Err(AmpError::Storage(e)), log),
        }
    }

    /// The most recent checkpoints of `agent`, newest first, at most `limit`
    /// (see `get_recent_traced`). The query asks for `agent`'s checkpoints and
    /// passes `limit` on (a `limit` beyond `i64::MAX` as SQLite reads it, as
    /// no limit); of what comes back, only checkpoints of `agent` are kept, at
    /// most `limit`.
    pub fn get_recent(&self, agent: &str, limit: usize) -> (r: Result<Vec<Checkpoint>>)
        ensures
            r matches Ok(v) ==> {
                &&& v@.len() <= limit
                &&& forall|i: int|
                    0 <= i < v@.len() ==> read_checkpoint(#[trigger] v@[i]) && v@[i].agent@ == agent@
            },
    {
        let (r, _) = self.get_recent_traced(agent, limit);
        r
    }

    /// Reads recent checkpoints as `get_recent` does, and gives the query
    /// handed to SQLite: it asks for `[agent, limit]` and sorts by creation
    /// time, newest first, before its limit keeps the first ones
    /// (`sorts_then_limits` with `ORDER BY created_at DESC`); the checkpoints
    /// returned are, in order, those the rows that come back stand for, of
    /// `agent`, at most `limit`.
    pub fn get_recent_traced(&self, agent: &str, limit: usize) -> (r: (
        Result<Vec<Checkpoint>>,
        Ghost<Seq<Call>>,
    ))
        ensures
            r.1@.len() == 1,
            sorts_then_limits(r.1@[0].sql, "ORDER BY created_at DESC"@),
            r.1@[0].args.len() == 2 && is_text(r.1@[0].args[0], agent@) && is_limit(
                r.1@[0].args[1],
                limit,
            ),
            r.0 matches Ok(v) ==> {
                &&& v@.len() <= limit
                &&& forall|i: int|
                    0 <= i < v@.len() ==> read_checkpoint(#[trigger] v@[i]) && v@[i].agent@ == agent@
                &&& r.1@[0].reply matches Reply::Rows(rows) && exists|all: Seq<Checkpoint>|
                    #[trigger] first_of(all.filter(of_agent(agent@)), limit) == v@ && all.len()
                        == rows.len() && forall|i: int|
                        0 <= i < rows.len() ==> checkpoint_cells(rows[i]) && checkpoint_of_row(
                            rows[i],
                            #[trigger] all[i],
                        )
            },
    {
        let args = key_limit_args(agent, limit);
        proof {
            reveal_strlit("SELECT id, agent, working_on, state, created_at
             FROM checkpoints WHERE agent = ?1
             ORDER BY created_at DESC LIMIT ?2");
            reveal_strlit("ORDER BY created_at DESC");
            reveal_strlit("LIMIT");
        }
        let (res, call) = query_traced(
            self.conn,
            "SELECT id, agent, working_on, state, created_at
             FROM checkpoints WHERE agent = ?1
             ORDER BY created_at DESC LIMIT ?2",
            &args,
            CHECKPOINT_COLUMNS,
        );
        proof {
            lemma_sorts_then_limits(call@.sql, "ORDER BY created_at DESC"@, 108, 133);
        }
        let ghost calls = seq![call@];
        let log: Ghost<Seq<Call>> = Ghost(calls);
        let rows = match res {
            Ok(rows) => rows,
            Err(e) => {
                return (Err(AmpError::Storage(e)), log);
            },
        };
        let all = match checkpoints_from_rows(&rows) {
            Ok(all) => all,
            Err(e) => {
                return (Err(e), log);
            },
        };
        let ghost read = all@;
        let v = keep_agent_checkpoints(all, agent, limit);
        proof {
            assert forall|i: int| 0 <= i < v@.len() implies read_checkpoint(#[trigger] v@[i])
                && v@[i].agent@ == agent@ by {
                let j = choose|j: int| 0 <= j < read.len() && read[j] == v@[i];
                assert(checkpoint_cells(rows@[j]@));
                assert(checkpoint_of_row(rows@[j]@, read[j]));
            }
            let cells = cells_of(rows@);
            assert forall|i: int| 0 <= i < cells.len() implies checkpoint_cells(cells[i])
                && checkpoint_of_row(cells[i], #[trigger] read[i]) by {
                assert(cells[i] == rows@[i]@);
            }
            assert(first_of(read.filter(of_agent(agent@)), limit) == v@);
        }
        (Ok(v), log)
    }

    /// Stores a checkpoint's embedding, given as the bytes of its `f32`s,
    /// replacing any earlier one (see `store_embedding_traced`).
    pub fn store_embedding(&self, checkpoint_id: &str, embedding_bytes: &Vec<u8>) -> Result<()> {
        let (r, _) = self.store_embedding_traced(checkpoint_id, embedding_bytes);
        r
    }

    /// Stores a checkpoint's embedding as `store_embedding` does, and gives
    /// the statement handed to SQLite: the insert of `[checkpoint_id, bytes]`.
    pub fn store_embedding_traced(&self, checkpoint_id: &str, embedding_bytes: &Vec<u8>) -> (r: (
        Result<()>,
        Ghost<Seq<Call>>,
    ))
        ensures
            r.1@.len() == 1,
            r.1@[0].sql == INSERT_CHECKPOINT_EMBEDDING_SQL@,
            r.1@[0].args.len() == 2 && is_text(r.1@[0].args[0], checkpoint_id@) && is_blob(
                r.1@[0].args[1],
                embedding_bytes@,
            ),
            r.0 is Ok <==> r.1@[0].reply is Changed,
    {
        let args = key_blob_args(checkpoint_id, embedding_bytes);
        let (res, call) = execute_traced(self.conn, INSERT_CHECKPOINT_EMBEDDING_SQL, &args);
        let ghost calls = seq![call@];
        let log: Ghost<Seq<Call>> = Ghost(calls);
        match res {
            Ok(_) => (Ok(()), log),
            Err(e) => (Err(AmpError::Storage(e)), log),
        }
    }

    /// The checkpoints whose embeddings are nearest to `query_embedding` (the
    /// bytes of its floats), nearest first, at most `limit` of them (a
    /// `limit` beyond `i64::MAX` is passed on as SQLite reads it), only those
    /// of `agent_filter` when it is given, each with its distance (see
    /// `search_by_embedding_traced`). Which checkpoints come back depends on
    /// the database; each is what a row of the search stands for, and of
    /// what comes back only results of the agent asked for are kept, at most
    /// `limit`.
    pub fn search_by_embedding(
        &self,
        query_embedding: &Vec<u8>,
        limit: usize,
        agent_filter: Option<&str>,
    ) -> (r: Result<Vec<(Checkpoint, SqlNumber)>>)
        ensures
            r matches Ok(v) ==> {
                &&& v@.len() <= limit
                &&& forall|i: int|
                    0 <= i < v@.len() ==> read_checkpoint_match((#[trigger] v@[i]).0, v@[i].1) && (
                    agent_filter matches Some(a) ==> v@[i].0.agent@ == a@)
            },
    {
        let (r, _) = self.search_by_embedding_traced(query_embedding, limit, agent_filter);
        r
    }

    /// Searches as `search_by_embedding` does, and gives the query handed to
    /// SQLite. With or without an agent, the query sorts the matches by
    /// distance, nearest first, before its limit keeps the first ones
    /// (`sorts_then_limits` with `ORDER BY e.distance`); the results are, in
    /// order, those the rows that come back stand for, of the agent asked
    /// for, at most `limit`.
    pub fn search_by_embedding_traced(
        &self,
        query_embedding: &Vec<u8>,
        limit: usize,
        agent_filter: Option<&str>,
    ) -> (r: (Result<Vec<(Checkpoint, SqlNumber)>>, Ghost<Seq<Call>>))
        ensures
            r.1@.len() == 1,
            sorts_then_limits(r.1@[0].sql, "ORDER BY e.distance"@),
            match agent_filter {
                Some(a) => r.1@[0].args.len() == 3 && is_text(r.1@[0].args[0], a@) && is_blob(
                    r.1@[0].args[1],
                    query_embedding@,
                ) && is_limit(r.1@[0].args[2], limit),
                None => r.1@[0].args.len() == 2 && is_blob(r.1@[0].args[0], query_embedding@)
                    && is_limit(r.1@[0].args[1], limit),
            },
            r.0 matches Ok(v) ==> {
                &&& v@.len() <= limit
                &&& forall|i: int|
                    0 <= i < v@.len() ==> read_checkpoint_match((#[trigger] v@[i]).0, v@[i].1) && (
                    agent_filter matches Some(a) ==> v@[i].0.agent@ == a@)
                &&& r.1@[0].reply matches Reply::Rows(rows) && exists|all: Seq<(Checkpoint, SqlNumber)>|
                    #[trigger] first_of(all.filter(match_of_agent(filter_view(agent_filter))), limit)
                        == v@ && all.len() == rows.len() && forall|i: int|
                        0 <= i < rows.len() ==> checkpoint_match_of_row(
                            rows[i],
                            (#[trigger] all[i]).0,
                            all[i].1,
                        )
            },
    {
        let (res, call) = match agent_filter {
            Some(agent) => {
                let args = key_blob_limit_args(agent, query_embedding, limit);
                proof {
                    reveal_strlit("SELECT c.id, c.agent, c.working_on, c.state, c.created_at, e.distance
                 FROM checkpoint_embeddings e
                 JOIN checkpoints c ON c.id = e.id
                 WHERE c.agent = ?1 AND e.embedding MATCH ?2
                 ORDER BY e.distance
                 LIMIT ?3");
                    reveal_strlit("ORDER BY e.distance");
                    reveal_strlit("LIMIT");
                }
                let (res, call) = query_traced(
                    self.conn,
                    "SELECT c.id, c.agent, c.working_on, c.state, c.created_at, e.distance
                 FROM checkpoint_embeddings e
                 JOIN checkpoints c ON c.id = e.id
                 WHERE c.agent = ?1 AND e.embedding MATCH ?2
                 ORDER BY e.distance
                 LIMIT ?3",
                    &args,
                    CHECKPOINT_MATCH_COLUMNS,
                );
                proof {
                    lemma_sorts_then_limits(call@.sql, "ORDER BY e.distance"@, 245, 282);
                }
                (res, call)
            },
            None => {
                let args = blob_limit_args(query_embedding, limit);
                proof {
                    reveal_strlit("SELECT c.id, c.agent, c.working_on, c.state, c.created_at, e.distance
                 FROM checkpoint_embeddings e
                 JOIN checkpoints c ON c.id = e.id
                 WHERE e.embedding MATCH ?1
                 ORDER BY e.distance
                 LIMIT ?2");
                    reveal_strlit("ORDER BY e.distance");
                    reveal_strlit("LIMIT");
                }
                let (res, call) = query_traced(
                    self.conn,
                    "SELECT c.id, c.agent, c.working_on, c.state, c.created_at, e.distance
                 FROM checkpoint_embeddings e
                 JOIN checkpoints c ON c.id = e.id
                 WHERE e.embedding MATCH ?1
                 ORDER BY e.distance
                 LIMIT ?2",
                    &args,
                    CHECKPOINT_MATCH_COLUMNS,
                );
                proof {
                    lemma_sorts_then_limits(call@.sql, "ORDER BY e.distance"@, 228, 265);
                }
                (res, call)
            },
        };
        let ghost calls = seq![call@];
        let log: Ghost<Seq<Call>> = Ghost(calls);
        let rows = match res {
            Ok(rows) => rows,
            Err(e) => {
                return (Err(AmpError::Storage(e)), log);
            },
        };
        let all = match checkpoint_matches_from_rows(&rows) {
            Ok(all) => all,
            Err(e) => {
                return (Err(e), log);
            },
        };
        let ghost read = all@;
        let v = keep_agent_matches(all, agent_filter, limit);
        proof {
            assert forall|i: int| 0 <= i < v@.len() implies read_checkpoint_match(
                (#[trigger] v@[i]).0,
                v@[i].1,
            ) && (agent_filter matches Some(a) ==> v@[i].0.agent@ == a@) by {
                let j = choose|j: int| 0 <= j < read.len() && read[j] == v@[i];
                assert(checkpoint_match_of_row(rows@[j]@, read[j].0, read[j].1));
            }
            let cells = cells_of(rows@);
            assert forall|i: int| 0 <= i < cells.len() implies checkpoint_match_of_row(
                cells[i],
                (#[trigger] read[i]).0,
                read[i].1,
            ) by {
                assert(cells[i] == rows@[i]@);
            }
            assert(first_of(read.filter(match_of_agent(filter_view(agent_filter))), limit) == v@);
        }
        (Ok(v), log)
    }

    /// The status of `agent`: its checkpoint count (`count_cell` of the rows
    /// of its `COUNT(*)` query) and, from its latest checkpoint (the first of
    /// `get_recent(agent, 1)`), its task and whether it is idle at the time of
    /// asking (`status_from`).
    pub fn get_agent_status(&self, agent: &str) -> (r: Result<AgentStatus>)
        ensures
            r matches Ok(s) ==> s.agent@ == agent@ && status_read(agent@, s),
    {
        let args = key_args(agent);
        let rows = query_rows(
            self.conn,
            "SELECT COUNT(*) FROM checkpoints WHERE agent = ?1",
            &args,
            1,
        )?;
        let checkpoint_count = count_cell(&rows)?;
        let recent = self.get_recent(agent, 1)?;
        let now = now_utc();
        let s = status_from(agent, checkpoint_count, &recent, now);
        proof {
            if recent@.len() > 0 {
                assert(read_checkpoint(recent@[0]) && recent@[0].agent@ == agent@);
            }
            assert(spec_agent_status(agent@, s.checkpoint_count, latest_seen(first_checkpoint(recent@)), now, s));
        }
        Ok(s)
    }

    /// The distinct agents that have checkpoints, in order.
    pub fn list_agents(&self) -> (r: Result<Vec<String>>) {
        let args: Vec<SqlValue> = Vec::new();
        let rows = query_rows(
            self.conn,
            "SELECT DISTINCT agent FROM checkpoints ORDER BY agent",
            &args,
            1,
        )?;
        texts_from_rows(&rows)
    }
}

} // verus!
