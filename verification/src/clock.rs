//! UTC instants as plain values, and the calls into chrono that read the
//! clock and write and read RFC 3339 text.
use vstd::prelude::*;

verus! {

/// A UTC instant: whole seconds since the Unix epoch and the nanoseconds
/// past that second.
#[derive(Debug, Clone, Copy, PartialEq, Eq, PartialOrd, Ord, Hash)]
pub struct Timestamp {
    pub secs: i64,
    pub nanos: u32,
}

pub const NANOS_PER_SEC: i128 = 1_000_000_000;

pub const NANOS_PER_HOUR: i128 = 3_600_000_000_000;

impl Timestamp {
    /// Seconds since the Unix epoch.
    pub fn timestamp(&self) -> (r: i64)
        ensures
            r == self.secs,
    {
        self.secs
    }
}

/// Nanoseconds from `earlier` to `later` (negative when `later` comes first).
pub open spec fn elapsed_nanos(later: Timestamp, earlier: Timestamp) -> int {
    (later.secs - earlier.secs) * 1_000_000_000 + (later.nanos - earlier.nanos)
}

/// Nanoseconds from `earlier` to `later` (negative when `later` comes first).
pub fn nanos_between(later: Timestamp, earlier: Timestamp) -> (r: i128)
    ensures
        r == elapsed_nanos(later, earlier),
{
    let ds: i128 = later.secs as i128 - earlier.secs as i128;
    let dn: i128 = later.nanos as i128 - earlier.nanos as i128;
    ds * NANOS_PER_SEC + dn
}

/// The RFC 3339 text that chrono writes for an instant (`to_rfc3339`), or
/// `None` where the instant is outside chrono's range.
pub uninterp spec fn spec_rfc3339(secs: i64, nanos: u32) -> Option<Seq<char>>;

/// The instant that chrono reads from RFC 3339 text
/// (`DateTime::parse_from_rfc3339`, as UTC), or `None` where the text is not
/// RFC 3339.
pub uninterp spec fn spec_parse_rfc3339(s: Seq<char>) -> Option<(i64, u32)>;

/// The current time, read with `chrono::Utc::now()`. Which instant comes
/// back depends on the clock; it is one chrono holds as a `DateTime`, so
/// chrono can write it as RFC 3339 text.
#[verifier::external_body]
pub fn now_utc() -> (r: Timestamp)
    ensures
        spec_rfc3339(r.secs, r.nanos) is Some,
{
    let now = chrono::Utc::now();
    Timestamp { secs: now.timestamp(), nanos: now.timestamp_subsec_nanos() }
}

/// The instant falls in the years 0 to 9999, those that RFC 3339 text
/// writes with four digits.
pub open spec fn rfc3339_year(t: Timestamp) -> bool {
    -62167219200 <= t.secs <= 253402300799
}

/// Writes an instant as RFC 3339 text with `DateTime::from_timestamp` and
/// `to_rfc3339`; the text is a function of the instant alone. For an instant
/// in the years 0 to 9999, `DateTime::parse_from_rfc3339` reads the same
/// instant back: `to_rfc3339` writes every non-zero fractional digit
/// (`SecondsFormat::AutoSi`) and a leap second as second 60, and other years
/// are written with a sign, which RFC 3339 text cannot hold.
#[verifier::external_body]
pub fn format_rfc3339(t: Timestamp) -> (r: Option<String>)
    ensures
        match spec_rfc3339(t.secs, t.nanos) {
            Some(s) => r matches Some(x) && x@ == s,
            None => r is None,
        },
        rfc3339_year(t) ==> (r matches Some(x) ==> spec_parse_rfc3339(x@) == Some((t.secs, t.nanos))),
{
    match chrono::DateTime::from_timestamp(t.secs, t.nanos) {
        Some(d) => Some(d.to_rfc3339()),
        None => None,
    }
}

/// Reads RFC 3339 text with `DateTime::parse_from_rfc3339`; the instant is
/// a function of the text alone.
#[verifier::external_body]
pub fn parse_rfc3339(s: &str) -> (r: Option<Timestamp>)
    ensures
        match spec_parse_rfc3339(s@) {
            Some(p) => r == Some(Timestamp { secs: p.0, nanos: p.1 }),
            None => r is None,
        },
{
    match chrono::DateTime::parse_from_rfc3339(s) {
        Ok(d) => Some(Timestamp { secs: d.timestamp(), nanos: d.timestamp_subsec_nanos() }),
        Err(_) => None,
    }
}

} // verus!
