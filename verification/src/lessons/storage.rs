//! Storing lessons in the database.
use super::{lemma_severity_roundtrip, severity_name, spec_parse_severity, Lesson, Severity};
use crate::clock::{
    format_rfc3339, now_utc, parse_rfc3339, rfc3339_year, spec_parse_rfc3339, spec_rfc3339,
    Timestamp,
};
use crate::error::{AmpError, Result};
use crate::ids::new_uuid_v4;
use crate::json::{spec_json_of_strings, spec_strings_of_json, strings_from_json, strings_to_json, strings_view};
use crate::sql::{
    cell_int, cell_number, cell_text, number_of, query_returned_no_rows, query_rows,
    blob_limit_args, cells_of, execute_traced, hands, is_blob, is_text, key_args, key_blob_args,
    is_limit, key_limit_args, key_row, lemma_sorts_then_limits, limit_args, query_traced, sorts_then_limits, text_of, Call, Reply, SqlNumber, SqlValue,
};
use vstd::prelude::*;

verus! {

broadcast use vstd::string::group_string_axioms;

/// The columns a lesson is read from, in order.
pub const LESSON_COLUMNS: usize = 7;

/// The instant stored RFC 3339 text stands for, where it can be read.
pub open spec fn stored_time_is(text: Seq<char>, t: Timestamp) -> bool {
    spec_parse_rfc3339(text) matches Some(p) ==> t == Timestamp { secs: p.0, nanos: p.1 }
}

/// `l` is the lesson that a row of text cells (id, title, content, tags,
/// severity, created, updated) stands for: tags that are not a JSON list of
/// strings read as none, an unknown severity as `Info`, and a time that is
/// not RFC 3339 as the time of reading.
pub open spec fn lesson_of_row(row: Seq<SqlValue>, l: Lesson) -> bool {
    &&& l.id@ == text_of(row[0])
    &&& l.title@ == text_of(row[1])
    &&& l.content@ == text_of(row[2])
    &&& strings_view(l.tags@) == match spec_strings_of_json(text_of(row[3])) {
        Some(t) => t,
        None => Seq::empty(),
    }
    &&& l.severity == match spec_parse_severity(text_of(row[4])) {
        Ok(s) => s,
        Err(_) => Severity::Info,
    }
    &&& stored_time_is(text_of(row[5]), l.created_at)
    &&& stored_time_is(text_of(row[6]), l.updated_at)
}

/// `l` is what some row of the lessons table stands for.
pub open spec fn read_lesson(l: Lesson) -> bool {
    exists|row: Seq<SqlValue>| lesson_cells(row) && #[trigger] lesson_of_row(row, l)
}

/// The seven cells a lesson is read from hold text.
pub open spec fn lesson_cells(row: Seq<SqlValue>) -> bool {
    &&& row.len() >= 7
    &&& row[0] is Text
    &&& row[1] is Text
    &&& row[2] is Text
    &&& row[3] is Text
    &&& row[4] is Text
    &&& row[5] is Text
    &&& row[6] is Text
}

/// The instant stored text stands for, or the current time where it is not
/// RFC 3339.
fn stored_time(text: &str) -> (r: Timestamp)
    ensures
        stored_time_is(text@, r),
{
    match parse_rfc3339(text) {
        Some(t) => t,
        None => now_utc(),
    }
}

/// The lesson a row of the lessons table stands for.
pub fn lesson_from_row(row: &Vec<SqlValue>) -> (r: Result<Lesson>)
    requires
        row@.len() >= LESSON_COLUMNS,
    ensures
        match r {
            Ok(l) => lesson_cells(row@) && lesson_of_row(row@, l),
            Err(e) => !lesson_cells(row@) && e is Storage,
        },
{
    let tags_str = cell_text(row, 3)?;
    let severity_str = cell_text(row, 4)?;
    let created_str = cell_text(row, 5)?;
    let updated_str = cell_text(row, 6)?;
    let id = cell_text(row, 0)?;
    let title = cell_text(row, 1)?;
    let content = cell_text(row, 2)?;
    let tags = match strings_from_json(tags_str.as_str()) {
        Some(t) => t,
        None => {
            let v: Vec<String> = Vec::new();
            assert(strings_view(v@) =~= Seq::<Seq<char>>::empty());
            v
        },
    };
    let severity = match Severity::parse(severity_str.as_str()) {
        Ok(s) => s,
        Err(_) => Severity::Info,
    };
    let created_at = stored_time(created_str.as_str());
    let updated_at = stored_time(updated_str.as_str());
    Ok(Lesson { id, title, content, tags, severity, created_at, updated_at })
}

/// The lessons the rows of a query stand for, in order.
pub fn lessons_from_rows(rows: &Vec<Vec<SqlValue>>) -> (r: Result<Vec<Lesson>>)
    requires
        forall|i: int| 0 <= i < rows@.len() ==> (#[trigger] rows@[i])@.len() >= LESSON_COLUMNS,
    ensures
        match r {
            Ok(v) => {
                &&& v@.len() == rows@.len()
                &&& forall|i: int| 0 <= i < v@.len() ==> lesson_cells(#[trigger] rows@[i]@)
                &&& forall|i: int| 0 <= i < v@.len() ==> lesson_of_row(rows@[i]@, #[trigger] v@[i])
            },
            Err(e) => e is Storage && exists|i: int|
                0 <= i < rows@.len() && !lesson_cells(#[trigger] rows@[i]@),
        },
{
    let mut out: Vec<Lesson> = Vec::new();
    let mut i: usize = 0;
    while i < rows.len()
        invariant
            i <= rows@.len(),
            forall|k: int| 0 <= k < rows@.len() ==> (#[trigger] rows@[k])@.len() >= LESSON_COLUMNS,
            out@.len() == i,
            forall|k: int| 0 <= k < i ==> lesson_cells(#[trigger] rows@[k]@),
            forall|k: int| 0 <= k < i ==> lesson_of_row(rows@[k]@, #[trigger] out@[k]),
        decreases rows@.len() - i,
    {
        let l = match lesson_from_row(&rows[i]) {
            Ok(l) => l,
            Err(e) => {
                assert(!lesson_cells(rows@[i as int]@));
                return Err(e);
            },
        };
        let ghost before = out@;
        out.push(l);
        proof {
            assert forall|k: int| 0 <= k < i + 1 implies lesson_of_row(
                rows@[k]@,
                #[trigger] out@[k],
            ) by {
                if k < i {
                    assert(out@[k] == before[k]);
                }
            }
        }
        i = i + 1;
    }
    Ok(out)
}

/// `row` holds the cells that store lesson `l`, in the order of the lessons
/// columns: identifier, title, content, tags as the JSON serde_json writes,
/// severity name, and creation and update times as RFC 3339 text.
pub open spec fn lesson_row_of(row: Seq<SqlValue>, l: Lesson) -> bool {
    &&& lesson_cells(row)
    &&& row.len() == 7
    &&& text_of(row[0]) == l.id@
    &&& text_of(row[1]) == l.title@
    &&& text_of(row[2]) == l.content@
    &&& text_of(row[3]) == spec_json_of_strings(strings_view(l.tags@))
    &&& text_of(row[4]) == severity_name(l.severity)
    &&& spec_rfc3339(l.created_at.secs, l.created_at.nanos) == Some(text_of(row[5]))
    &&& spec_rfc3339(l.updated_at.secs, l.updated_at.nanos) == Some(text_of(row[6]))
}

/// The time cells of a lesson row hold text that chrono reads as RFC 3339.
pub open spec fn lesson_times_readable(row: Seq<SqlValue>) -> bool {
    &&& spec_parse_rfc3339(text_of(row[5])) is Some
    &&& spec_parse_rfc3339(text_of(row[6])) is Some
}

/// The cells that store lesson `l`, or `None` where one of its times has no
/// RFC 3339 text. Read back, they give the same lesson when its times fall
/// in the years 0 to 9999.
pub fn lesson_insert_args(l: &Lesson) -> (r: Option<Vec<SqlValue>>)
    ensures
        match r {
            Some(row) => {
                &&& lesson_row_of(row@, *l)
                &&& rfc3339_year(l.created_at) && rfc3339_year(l.updated_at) ==> lesson_of_row(
                    row@,
                    *l,
                ) && lesson_times_readable(row@)
            },
            None => spec_rfc3339(l.created_at.secs, l.created_at.nanos) is None || spec_rfc3339(
                l.updated_at.secs,
                l.updated_at.nanos,
            ) is None,
        },
{
    let tags_json = match strings_to_json(&l.tags) {
        Ok(j) => j,
        Err(_) => {
            assert(false);
            String::new()
        },
    };
    let created = format_rfc3339(l.created_at)?;
    let updated = format_rfc3339(l.updated_at)?;
    let mut row: Vec<SqlValue> = Vec::new();
    row.push(SqlValue::Text(l.id.clone()));
    row.push(SqlValue::Text(l.title.clone()));
    row.push(SqlValue::Text(l.content.clone()));
    row.push(SqlValue::Text(tags_json));
    row.push(SqlValue::Text(l.severity.to_string()));
    row.push(SqlValue::Text(created));
    row.push(SqlValue::Text(updated));
    proof {
        lemma_severity_roundtrip(l.severity);
    }
    Some(row)
}

/// A lesson read back from the row written for a lesson is that lesson: a
/// row that stands for the lesson written (as the row of
/// `lesson_insert_args` does) and whose times can be read stands for no
/// other lesson.
pub proof fn lemma_lesson_read_after_write(row: Seq<SqlValue>, written: Lesson, read: Lesson)
    requires
        lesson_of_row(row, written),
        lesson_times_readable(row),
        lesson_of_row(row, read),
    ensures
        read.id@ == written.id@,
        read.title@ == written.title@,
        read.content@ == written.content@,
        strings_view(read.tags@) == strings_view(written.tags@),
        read.severity == written.severity,
        read.created_at == written.created_at,
        read.updated_at == written.updated_at,
{
}

/// A lesson added and then looked up by its identifier comes back as it was
/// added, when the lookup's query returns first the row the add handed to
/// SQLite (and that row reads back, as `add_traced` gives for a time in the
/// years 0 to 9999): same identifier, title, content, tags, severity and
/// times.
pub proof fn lemma_add_then_get(insert: Call, added: Lesson, rows: Seq<Seq<SqlValue>>, got: Result<Option<Lesson>>)
    requires
        lesson_row_of(insert.args, added),
        lesson_of_row(insert.args, added),
        lesson_times_readable(insert.args),
        rows.len() > 0,
        rows[0] == insert.args,
        lookup_gives(added.id@, rows, got),
    ensures
        got matches Ok(Some(g)) && {
            &&& g.id@ == added.id@
            &&& g.title@ == added.title@
            &&& g.content@ == added.content@
            &&& strings_view(g.tags@) == strings_view(added.tags@)
            &&& g.severity == added.severity
            &&& g.created_at == added.created_at
            &&& g.updated_at == added.updated_at
        },
{
    assert(lesson_cells(rows[0]));
    assert(text_of(rows[0][0]) == added.id@);
    let g = got->Ok_0->Some_0;
    lemma_lesson_read_after_write(insert.args, added, g);
}

/// The columns a lesson found by a search is read from: the lesson's, then
/// its distance to the query.
pub const LESSON_MATCH_COLUMNS: usize = 8;

/// `(l, d)` is the lesson and distance that a row of a search stands for.
pub open spec fn lesson_match_of_row(row: Seq<SqlValue>, l: Lesson, d: SqlNumber) -> bool {
    &&& lesson_cells(row)
    &&& lesson_of_row(row, l)
    &&& number_of(row[7]) == Some(d)
}

/// `(l, d)` is what some row of a lesson search stands for.
pub open spec fn read_lesson_match(l: Lesson, d: SqlNumber) -> bool {
    exists|row: Seq<SqlValue>| row.len() >= 8 && #[trigger] lesson_match_of_row(row, l, d)
}

/// The lesson and distance a row of a lesson search stands for.
pub fn lesson_match_from_row(row: &Vec<SqlValue>) -> (r: Result<(Lesson, SqlNumber)>)
    requires
        row@.len() >= LESSON_MATCH_COLUMNS,
    ensures
        match r {
            Ok((l, d)) => lesson_match_of_row(row@, l, d),
            Err(e) => e is Storage && (!lesson_cells(row@) || number_of(row@[7]) is None),
        },
{
    let distance = cell_number(row, 7)?;
    let lesson = lesson_from_row(row)?;
    Ok((lesson, distance))
}

/// The lessons and distances the rows of a search stand for, in order.
pub fn lesson_matches_from_rows(rows: &Vec<Vec<SqlValue>>) -> (r: Result<Vec<(Lesson, SqlNumber)>>)
    requires
        forall|i: int| 0 <= i < rows@.len() ==> (#[trigger] rows@[i])@.len() >= LESSON_MATCH_COLUMNS,
    ensures
        match r {
            Ok(v) => {
                &&& v@.len() == rows@.len()
                &&& forall|i: int|
                    0 <= i < v@.len() ==> lesson_match_of_row(rows@[i]@, (#[trigger] v@[i]).0, v@[i].1)
            },
            Err(e) => e is Storage && exists|i: int|
                0 <= i < rows@.len() && (!lesson_cells(#[trigger] rows@[i]@) || number_of(rows@[i]@[7]) is None),
        },
{
    let mut out: Vec<(Lesson, SqlNumber)> = Vec::new();
    let mut i: usize = 0;
    while i < rows.len()
        invariant
            i <= rows@.len(),
            forall|k: int| 0 <= k < rows@.len() ==> (#[trigger] rows@[k])@.len() >= LESSON_MATCH_COLUMNS,
            out@.len() == i,
            forall|k: int|
                0 <= k < i ==> lesson_match_of_row(rows@[k]@, (#[trigger] out@[k]).0, out@[k].1),
        decreases rows@.len() - i,
    {
        let m = match lesson_match_from_row(&rows[i]) {
            Ok(m) => m,
            Err(e) => {
                assert(!lesson_cells(rows@[i as int]@) || number_of(rows@[i as int]@[7]) is None);
                return Err(e);
            },
        };
        let ghost before = out@;
        out.push(m);
        proof {
            assert forall|k: int| 0 <= k < i + 1 implies lesson_match_of_row(
                rows@[k]@,
                (#[trigger] out@[k]).0,
                out@[k].1,
            ) by {
                if k < i {
                    assert(out@[k] == before[k]);
                }
            }
        }
        i = i + 1;
    }
    Ok(out)
}

/// The statement that inserts a lesson row.
pub const INSERT_LESSON_SQL: &'static str = "INSERT INTO lessons (id, title, content, tags, severity, created_at, updated_at)
             VALUES (?1, ?2, ?3, ?4, ?5, ?6, ?7)";

/// The query for the row of one lesson.
pub const GET_LESSON_SQL: &'static str = "SELECT id, title, content, tags, severity, created_at, updated_at FROM lessons WHERE id = ?1";

/// The statement that deletes a lesson's embedding.
pub const DELETE_LESSON_EMBEDDING_SQL: &'static str = "DELETE FROM lesson_embeddings WHERE id = ?1";

/// The statement that deletes a lesson row.
pub const DELETE_LESSON_SQL: &'static str = "DELETE FROM lessons WHERE id = ?1";

/// The statement that stores a lesson's embedding.
pub const INSERT_LESSON_EMBEDDING_SQL: &'static str = "INSERT INTO lesson_embeddings (id, embedding) VALUES (?1, ?2)";

/// `r` is what looking up identifier `id` gives from the rows of its query
/// (see `lesson_lookup`).
pub open spec fn lookup_gives(id: Seq<char>, rows: Seq<Seq<SqlValue>>, r: Result<Option<Lesson>>) -> bool {
    &&& rows.len() == 0 ==> (r matches Ok(None))
    &&& rows.len() > 0 ==> match r {
        Ok(Some(l)) => lesson_cells(rows[0]) && lesson_of_row(rows[0], l) && l.id@ == id,
        Ok(None) => lesson_cells(rows[0]) && text_of(rows[0][0]) != id,
        Err(e) => !lesson_cells(rows[0]) && e is Storage,
    }
}

/// Whether a statement that reported `rows` changed rows changed any.
pub fn removed_any(rows: usize) -> (b: bool)
    ensures
        b == (rows > 0),
{
    rows > 0
}

/// The lesson a lookup of identifier `id` gives from the rows of its query:
/// none without a row, the lesson of the first row when that row holds
/// `id`, and none when it holds another identifier.
pub fn lesson_lookup(id: &str, rows: &Vec<Vec<SqlValue>>) -> (r: Result<Option<Lesson>>)
    requires
        forall|i: int| 0 <= i < rows@.len() ==> (#[trigger] rows@[i])@.len() >= LESSON_COLUMNS,
    ensures
        rows@.len() == 0 ==> r matches Ok(None),
        rows@.len() > 0 ==> match r {
            Ok(Some(l)) => lesson_cells(rows@[0]@) && lesson_of_row(rows@[0]@, l) && l.id@ == id@,
            Ok(None) => lesson_cells(rows@[0]@) && text_of(rows@[0]@[0]) != id@,
            Err(e) => !lesson_cells(rows@[0]@) && e is Storage,
        },
        lookup_gives(id@, cells_of(rows@), r),
{
    assert(rows@.len() > 0 ==> cells_of(rows@)[0] == rows@[0]@);
    if rows.len() == 0 {
        return Ok(None);
    }
    let l = lesson_from_row(&rows[0])?;
    if !crate::text::str_eq(l.id.as_str(), id) {
        return Ok(None);
    }
    Ok(Some(l))
}

/// A lesson is of the severity asked for, if one is given.
pub open spec fn of_severity(severity: Option<Severity>) -> spec_fn(Lesson) -> bool {
    |l: Lesson| severity matches Some(s) ==> l.severity == s
}

/// The first `limit` items of `s` (all of them when there are fewer).
pub open spec fn first_of<T>(s: Seq<T>, limit: usize) -> Seq<T> {
    if s.len() <= limit {
        s
    } else {
        s.subrange(0, limit as int)
    }
}

/// The severity asked for, by value.
pub open spec fn severity_view(severity: Option<&Severity>) -> Option<Severity> {
    match severity {
        Some(s) => Some(*s),
        None => None,
    }
}

/// The lessons among `v` of `severity` (all of them when none is given), in
/// order, at most `limit` of them.
pub fn keep_severity(v: Vec<Lesson>, severity: Option<&Severity>, limit: usize) -> (r: Vec<Lesson>)
    ensures
        r@ == first_of(v@.filter(of_severity(severity_view(severity))), limit),
        r@.len() <= limit,
        forall|i: int|
            0 <= i < r@.len() ==> v@.contains(#[trigger] r@[i]) && (severity matches Some(s)
                ==> r@[i].severity == *s),
{
    let ghost all = v@;
    let ghost p = of_severity(severity_view(severity));
    let mut out: Vec<Lesson> = Vec::new();
    for l in it: v.into_iter()
        invariant
            it.seq() == all,
            p == of_severity(severity_view(severity)),
            out@ == all.take(it.index()).filter(p),
            forall|k: int|
                0 <= k < out@.len() ==> all.contains(#[trigger] out@[k]) && (severity matches Some(s)
                    ==> out@[k].severity == *s),
    {
        let ghost i = it.index();
        proof {
            assert(all.take(i + 1).drop_last() =~= all.take(i));
            reveal(Seq::filter);
        }
        let keep = match severity {
            Some(s) => l.severity == *s,
            None => true,
        };
        if keep {
            let ghost before = out@;
            out.push(l);
            proof {
                assert(all[i] == l);
                assert forall|k: int| 0 <= k < out@.len() implies all.contains(#[trigger] out@[k]) && (
                severity matches Some(s) ==> out@[k].severity == *s) by {
                    if k < before.len() {
                        assert(out@[k] == before[k]);
                    }
                }
            }
        }
    }
    assert(all.take(all.len() as int) =~= all);
    let ghost full = out@;
    out.truncate(limit);
    assert forall|i: int| 0 <= i < out@.len() implies all.contains(#[trigger] out@[i]) && (
    severity matches Some(s) ==> out@[i].severity == *s) by {
        assert(out@[i] == full[i]);
    }
    out
}

/// The count in the first cell of the first row of a `COUNT(*)` query,
/// converted as `as usize` converts an `i64`.
pub fn count_from_rows(rows: &Vec<Vec<SqlValue>>) -> (r: Result<usize>)
    requires
        forall|i: int| 0 <= i < rows@.len() ==> (#[trigger] rows@[i])@.len() >= 1,
    ensures
        match r {
            Ok(n) => rows@.len() > 0 && (rows@[0]@[0] matches SqlValue::Integer(c) && n == c as usize),
            Err(e) => e is Storage && (rows@.len() == 0 || !(rows@[0]@[0] is Integer)),
        },
{
    if rows.len() == 0 {
        return Err(AmpError::Storage(query_returned_no_rows()));
    }
    let c = cell_int(&rows[0], 0)?;
    Ok(c as usize)
}

fn clone_strings(v: &[String]) -> (r: Vec<String>)
    ensures
        strings_view(r@) == strings_view(v@),
{
    let mut out: Vec<String> = Vec::new();
    let mut i: usize = 0;
    while i < v.len()
        invariant
            i <= v@.len(),
            strings_view(out@) == strings_view(v@).take(i as int),
        decreases v@.len() - i,
    {
        let ghost before = out@;
        let x = v[i].clone();
        assert(x@ == v@[i as int]@);
        out.push(x);
        assert(strings_view(out@) =~= strings_view(before).push(x@));
        assert(strings_view(out@) =~= strings_view(v@).take(i + 1));
        i = i + 1;
    }
    assert(strings_view(v@).take(v@.len() as int) =~= strings_view(v@));
    out
}

/// Database operations for lessons.
pub struct LessonStorage<'a> {
    conn: &'a rusqlite::Connection,
}

impl<'a> LessonStorage<'a> {
    /// The connection the store works on.
    pub closed spec fn connection(&self) -> &'a rusqlite::Connection {
        self.conn
    }

    /// A store working on `conn`.
    pub fn new(conn: &'a rusqlite::Connection) -> (r: Self)
        ensures
            r.connection() == conn,
    {
        LessonStorage { conn }
    }

    /// Adds a lesson with a fresh identifier, created and updated now (see
    /// `add_traced`, which also gives the statement handed to SQLite). On
    /// success the lesson holds the given title, content, tags and severity;
    /// whether the insert succeeds depends on the database.
    pub fn add(&self, title: &str, content: &str, tags: &[String], severity: &Severity) -> (r:
        Result<Lesson>)
        ensures
            r matches Ok(l) ==> {
                &&& l.id@.len() == 36
                &&& l.title@ == title@
                &&& l.content@ == content@
                &&& strings_view(l.tags@) == strings_view(tags@)
                &&& l.severity == *severity
                &&& l.created_at == l.updated_at
            },
    {
        let (r, _) = self.add_traced(title, content, tags, severity);
        r
    }

    /// Adds a lesson as `add` does, and gives the statement handed to SQLite:
    /// the insert of the row `lesson_insert_args` builds for the lesson
    /// returned, which reads back as that lesson when its time falls in the
    /// years 0 to 9999.
    pub fn add_traced(&self, title: &str, content: &str, tags: &[String], severity: &Severity) -> (r: (
        Result<Lesson>,
        Ghost<Seq<Call>>,
    ))
        ensures
            r.1@.len() == 1,
            r.1@[0].sql == INSERT_LESSON_SQL@,
            r.0 matches Ok(l) ==> {
                &&& l.id@.len() == 36
                &&& l.title@ == title@
                &&& l.content@ == content@
                &&& strings_view(l.tags@) == strings_view(tags@)
                &&& l.severity == *severity
                &&& l.created_at == l.updated_at
                &&& r.1@[0].reply is Changed
                &&& lesson_row_of(r.1@[0].args, l)
                &&& rfc3339_year(l.created_at) ==> lesson_of_row(r.1@[0].args, l)
                    && lesson_times_readable(r.1@[0].args)
            },
            r.0 is Err ==> r.1@[0].reply is Failed,
    {
        let now = now_utc();
        let lesson = Lesson {
            id: new_uuid_v4(),
            title: String::from_str(title),
            content: String::from_str(content),
            tags: clone_strings(tags),
            severity: *severity,
            created_at: now,
            updated_at: now,
        };
        let args = match lesson_insert_args(&lesson) {
            Some(a) => a,
            None => {
                assert(false);
                Vec::new()
            },
        };
        let (res, call) = execute_traced(self.conn, INSERT_LESSON_SQL, &args);
        let ghost calls = seq![call@];
        let log: Ghost<Seq<Call>> = Ghost(calls);
        match res {
            Ok(_) => (Ok(lesson), log),
            Err(e) => (Err(AmpError::Storage(e)), log),
        }
    }

    /// The lesson with identifier `id`, if the database holds one (see
    /// `get_traced`). A lesson returned is the one a row of text cells stands
    /// for, and has identifier `id`.
    pub fn get(&self, id: &str) -> (r: Result<Option<Lesson>>)
        ensures
            r matches Ok(Some(l)) ==> read_lesson(l) && l.id@ == id@,
    {
        let (r, call) = self.get_traced(id);
        proof {
            if r matches Ok(Some(_)) {
                let l = r->Ok_0->Some_0;
                let rows = call@[0].reply->Rows_0;
                assert(lesson_cells(rows[0]) && lesson_of_row(rows[0], l));
            }
        }
        r
    }

    /// Looks up the lesson with identifier `id` as `get` does, and gives the
    /// query handed to SQLite: the row of `id` is asked for, and the answer
    /// is what `lesson_lookup` gives from the rows that come back.
    pub fn get_traced(&self, id: &str) -> (r: (Result<Option<Lesson>>, Ghost<Seq<Call>>))
        ensures
            r.1@.len() == 1,
            hands(r.1@[0], GET_LESSON_SQL@, r.1@[0].args) && key_row(r.1@[0].args, id@),
            match r.1@[0].reply {
                Reply::Rows(rows) => lookup_gives(id@, rows, r.0),
                Reply::Failed => r.0 matches Err(AmpError::Storage(_)),
                Reply::Changed(_) => false,
            },
    {
        let args = key_args(id);
        let (res, call) = query_traced(self.conn, GET_LESSON_SQL, &args, LESSON_COLUMNS);
        let ghost calls = seq![call@];
        let log: Ghost<Seq<Call>> = Ghost(calls);
        match res {
            Ok(rows) => (lesson_lookup(id, &rows), log),
            Err(e) => (Err(AmpError::Storage(e)), log),
        }
    }

    /// Lessons, newest first, at most `limit` of them (a `limit` beyond
    /// `i64::MAX` is passed on as SQLite reads it, as no limit), only those of
    /// `severity` when it is given (see `list_traced`). Of what the query
    /// gives back, only lessons of that severity are kept, at most `limit`.
    pub fn list(&self, severity: Option<&Severity>, limit: usize) -> (r: Result<Vec<Lesson>>)
        ensures
            r matches Ok(v) ==> {
                &&& v@.len() <= limit
                &&& forall|i: int|
                    0 <= i < v@.len() ==> read_lesson(#[trigger] v@[i]) && (severity matches Some(s)
                        ==> v@[i].severity == *s)
            },
    {
        let (r, _) = self.list_traced(severity, limit);
        r
    }

    /// Lists lessons as `list` does, and gives the query handed to SQLite.
    /// The query sorts the lessons by creation time, newest first, before
    /// its limit keeps the first ones (`sorts_then_limits` with
    /// `ORDER BY created_at DESC`), with or without the severity filter; the
    /// lessons listed are, in order, those the rows that come back stand for,
    /// of the severity asked for, at most `limit`.
    pub fn list_traced(&self, severity: Option<&Severity>, limit: usize) -> (r: (
        Result<Vec<Lesson>>,
        Ghost<Seq<Call>>,
    ))
        ensures
            r.1@.len() == 1,
            sorts_then_limits(r.1@[0].sql, "ORDER BY created_at DESC"@),
            match severity {
                Some(s) => r.1@[0].args.len() == 2 && is_text(r.1@[0].args[0], severity_name(*s))
                    && is_limit(r.1@[0].args[1], limit),
                None => r.1@[0].args.len() == 1 && is_limit(r.1@[0].args[0], limit),
            },
            r.0 matches Ok(v) ==> {
                &&& v@.len() <= limit
                &&& forall|i: int|
                    0 <= i < v@.len() ==> read_lesson(#[trigger] v@[i]) && (severity matches Some(s)
                        ==> v@[i].severity == *s)
                &&& r.1@[0].reply matches Reply::Rows(rows) && exists|all: Seq<Lesson>|
                    #[trigger] first_of(all.filter(of_severity(severity_view(severity))), limit) == v@
                        && all.len() == rows.len() && forall|i: int|
                        0 <= i < rows.len() ==> lesson_cells(rows[i]) && lesson_of_row(
                            rows[i],
                            #[trigger] all[i],
                        )
            },
    {
        let (res, call) = match severity {
            Some(sev) => {
                let name = sev.to_string();
                let args = key_limit_args(name.as_str(), limit);
                let sql: &str = "SELECT id, title, content, tags, severity, created_at, updated_at FROM lessons WHERE severity = ?1 ORDER BY created_at DESC LIMIT ?2";
                proof {
                    reveal_strlit("SELECT id, title, content, tags, severity, created_at, updated_at FROM lessons WHERE severity = ?1 ORDER BY created_at DESC LIMIT ?2");
                    reveal_strlit("ORDER BY created_at DESC");
                    reveal_strlit("LIMIT");
                    lemma_sorts_then_limits(sql@, "ORDER BY created_at DESC"@, 99, 124);
                }
                query_traced(self.conn, sql, &args, LESSON_COLUMNS)
            },
            None => {
                let args = limit_args(limit);
                let sql: &str = "SELECT id, title, content, tags, severity, created_at, updated_at FROM lessons ORDER BY created_at DESC LIMIT ?1";
                proof {
                    reveal_strlit("SELECT id, title, content, tags, severity, created_at, updated_at FROM lessons ORDER BY created_at DESC LIMIT ?1");
                    reveal_strlit("ORDER BY created_at DESC");
                    reveal_strlit("LIMIT");
                    lemma_sorts_then_limits(sql@, "ORDER BY created_at DESC"@, 79, 104);
                }
                query_traced(self.conn, sql, &args, LESSON_COLUMNS)
            },
        };
        let ghost calls = seq![call@];
        let log: Ghost<Seq<Call>> = Ghost(calls);
        let rows = match res {
            Ok(rows) => rows,
            Err(e) => {
                return (Err(AmpError::Storage(e)), log);
            },
        };
        let all = match lessons_from_rows(&rows) {
            Ok(all) => all,
            Err(e) => {
                return (Err(e), log);
            },
        };
        let ghost read = all@;
        let v = keep_severity(all, severity, limit);
        proof {
            assert forall|i: int| 0 <= i < v@.len() implies read_lesson(#[trigger] v@[i]) && (
            severity matches Some(s) ==> v@[i].severity == *s) by {
                let j = choose|j: int| 0 <= j < read.len() && read[j] == v@[i];
                assert(lesson_cells(rows@[j]@));
                assert(lesson_of_row(rows@[j]@, read[j]));
            }
            let cells = cells_of(rows@);
            assert forall|i: int| 0 <= i < cells.len() implies lesson_cells(cells[i]) && lesson_of_row(
                cells[i],
                #[trigger] read[i],
            ) by {
                assert(cells[i] == rows@[i]@);
            }
            assert(first_of(read.filter(of_severity(severity_view(severity))), limit) == v@);
        }
        (Ok(v), log)
    }

    /// Number of lessons.
    pub fn count(&self) -> Result<usize> {
        let args: Vec<SqlValue> = Vec::new();
        let rows = query_rows(self.conn, "SELECT COUNT(*) FROM lessons", &args, 1)?;
        count_from_rows(&rows)
    }

    /// Number of lessons of one severity.
    pub fn count_by_severity(&self, severity: &Severity) -> Result<usize> {
        let name = severity.to_string();
        let args = key_args(name.as_str());
        let rows = query_rows(
            self.conn,
            "SELECT COUNT(*) FROM lessons WHERE severity = ?1",
            &args,
            1,
        )?;
        count_from_rows(&rows)
    }

    /// Deletes a lesson and its embedding; whether a lesson was deleted (see
    /// `delete_traced`). A failure to delete the embedding is ignored.
    pub fn delete(&self, id: &str) -> Result<bool> {
        let (r, _) = self.delete_traced(id);
        r
    }

    /// Deletes a lesson as `delete` does, and gives the statements handed to
    /// SQLite: the delete of the embedding of `id`, then the delete of the
    /// lesson `id`. The answer is whether the second changed a row
    /// (`removed_any` of its count).
    pub fn delete_traced(&self, id: &str) -> (r: (Result<bool>, Ghost<Seq<Call>>))
        ensures
            r.1@.len() == 2,
            r.1@[0].sql == DELETE_LESSON_EMBEDDING_SQL@ && key_row(r.1@[0].args, id@),
            r.1@[1].sql == DELETE_LESSON_SQL@ && key_row(r.1@[1].args, id@),
            match r.1@[1].reply {
                Reply::Changed(n) => r.0 == Ok::<bool, AmpError>(n > 0),
                _ => r.0 matches Err(AmpError::Storage(_)),
            },
    {
        let args = key_args(id);
        let (_, first) = execute_traced(self.conn, DELETE_LESSON_EMBEDDING_SQL, &args);
        let (res, second) = execute_traced(self.conn, DELETE_LESSON_SQL, &args);
        let ghost calls = seq![first@, second@];
        let log: Ghost<Seq<Call>> = Ghost(calls);
        match res {
            Ok(n) => (Ok(removed_any(n)), log),
            Err(e) => (Err(AmpError::Storage(e)), log),
        }
    }

    /// Stores a lesson's embedding, given as the bytes of its `f32`s (see
    /// `store_embedding_traced`).
    pub fn store_embedding(&self, lesson_id: &str, embedding_bytes: &Vec<u8>) -> Result<()> {
        let (r, _) = self.store_embedding_traced(lesson_id, embedding_bytes);
        r
    }

    /// Stores a lesson's embedding as `store_embedding` does, and gives the
    /// statement handed to SQLite: the insert of `[lesson_id, bytes]`.
    pub fn store_embedding_traced(&self, lesson_id: &str, embedding_bytes: &Vec<u8>) -> (r: (
        Result<()>,
        Ghost<Seq<Call>>,
    ))
        ensures
            r.1@.len() == 1,
            r.1@[0].sql == INSERT_LESSON_EMBEDDING_SQL@,
            r.1@[0].args.len() == 2 && is_text(r.1@[0].args[0], lesson_id@) && is_blob(
                r.1@[0].args[1],
                embedding_bytes@,
            ),
            r.0 is Ok <==> r.1@[0].reply is Changed,
    {
        let args = key_blob_args(lesson_id, embedding_bytes);
        let (res, call) = execute_traced(self.conn, INSERT_LESSON_EMBEDDING_SQL, &args);
        let ghost calls = seq![call@];
        let log: Ghost<Seq<Call>> = Ghost(calls);
        match res {
            Ok(_) => (Ok(()), log),
            Err(e) => (Err(AmpError::Storage(e)), log),
        }
    }

    /// The lessons whose embeddings are nearest to `query_embedding` (the
    /// bytes of its floats), nearest first, at most `limit` of them (a
    /// `limit` beyond `i64::MAX` is passed on as SQLite reads it), each with
    /// its distance (see `search_by_embedding_traced`). Which lessons come
    /// back depends on the database; each is what a row of the search stands
    /// for, and at most `limit` are kept.
    pub fn search_by_embedding(&self, query_embedding: &Vec<u8>, limit: usize) -> (r: Result<
        Vec<(Lesson, SqlNumber)>,
    >)
        ensures
            r matches Ok(v) ==> {
                &&& v@.len() <= limit
                &&& forall|i: int|
                    0 <= i < v@.len() ==> read_lesson_match((#[trigger] v@[i]).0, v@[i].1)
            },
    {
        let (r, _) = self.search_by_embedding_traced(query_embedding, limit);
        r
    }

    /// Searches as `search_by_embedding` does, and gives the query handed to
    /// SQLite. The query sorts the matches by distance, nearest first, before
    /// its limit keeps the first ones (`sorts_then_limits` with
    /// `ORDER BY e.distance`), with `[query bytes, limit]`; the matches
    /// returned are, in order, those the first rows that come back stand for,
    /// at most `limit`.
    pub fn search_by_embedding_traced(&self, query_embedding: &Vec<u8>, limit: usize) -> (r: (
        Result<Vec<(Lesson, SqlNumber)>>,
        Ghost<Seq<Call>>,
    ))
        ensures
            r.1@.len() == 1,
            sorts_then_limits(r.1@[0].sql, "ORDER BY e.distance"@),
            r.1@[0].args.len() == 2 && is_blob(r.1@[0].args[0], query_embedding@) && is_limit(
                r.1@[0].args[1],
                limit,
            ),
            r.0 matches Ok(v) ==> {
                &&& v@.len() <= limit
                &&& r.1@[0].reply matches Reply::Rows(rows) && v@.len() <= rows.len() && (v@.len()
                    == rows.len() || v@.len() == limit) && forall|i: int|
                    0 <= i < v@.len() ==> lesson_match_of_row(rows[i], (#[trigger] v@[i]).0, v@[i].1)
                &&& forall|i: int|
                    0 <= i < v@.len() ==> read_lesson_match((#[trigger] v@[i]).0, v@[i].1)
            },
    {
        let args = blob_limit_args(query_embedding, limit);
        proof {
            reveal_strlit("SELECT l.id, l.title, l.content, l.tags, l.severity, l.created_at, l.updated_at, e.distance
             FROM lesson_embeddings e
             JOIN lessons l ON l.id = e.id
             WHERE e.embedding MATCH ?1
             ORDER BY e.distance
             LIMIT ?2");
            reveal_strlit("ORDER BY e.distance");
            reveal_strlit("LIMIT");
        }
        let (res, call) = query_traced(
            self.conn,
            "SELECT l.id, l.title, l.content, l.tags, l.severity, l.created_at, l.updated_at, e.distance
             FROM lesson_embeddings e
             JOIN lessons l ON l.id = e.id
             WHERE e.embedding MATCH ?1
             ORDER BY e.distance
             LIMIT ?2",
            &args,
            LESSON_MATCH_COLUMNS,
        );
        proof {
            lemma_sorts_then_limits(call@.sql, "ORDER BY e.distance"@, 226, 259);
        }
        let ghost calls = seq![call@];
        let log: Ghost<Seq<Call>> = Ghost(calls);
        let rows = match res {
            Ok(rows) => rows,
            Err(e) => {
                return (Err(AmpError::Storage(e)), log);
            },
        };
        let mut v = match lesson_matches_from_rows(&rows) {
            Ok(v) => v,
            Err(e) => {
                return (Err(e), log);
            },
        };
        let ghost read = v@;
        v.truncate(limit);
        proof {
            assert forall|i: int| 0 <= i < v@.len() implies read_lesson_match(
                (#[trigger] v@[i]).0,
                v@[i].1,
            ) by {
                assert(v@[i] == read[i]);
                assert(lesson_match_of_row(rows@[i]@, read[i].0, read[i].1));
            }
            let cells = cells_of(rows@);
            assert forall|i: int| 0 <= i < v@.len() implies lesson_match_of_row(
                cells[i],
                (#[trigger] v@[i]).0,
                v@[i].1,
            ) by {
                assert(v@[i] == read[i]);
                assert(cells[i] == rows@[i]@);
            }
        }
        (Ok(v), log)
    }
}

} // verus!
