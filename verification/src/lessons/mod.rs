//! Lessons: things learned, with a severity and tags.
use crate::clock::Timestamp;
use crate::error::concat_str;
use crate::text::chars_of;
use vstd::prelude::*;

pub mod storage;

verus! {

broadcast use vstd::string::group_string_axioms;

/// How important a lesson is.
#[derive(Debug, Clone, Copy, PartialEq, Eq, Structural)]
pub enum Severity {
    Critical,
    Warning,
    Info,
}

/// A lesson learned.
#[derive(Debug, Clone)]
pub struct Lesson {
    pub id: String,
    pub title: String,
    pub content: String,
    pub tags: Vec<String>,
    pub severity: Severity,
    pub created_at: Timestamp,
    pub updated_at: Timestamp,
}

/// The name a severity is written and stored as.
pub open spec fn severity_name(s: Severity) -> Seq<char> {
    match s {
        Severity::Critical => "critical"@,
        Severity::Warning => "warning"@,
        Severity::Info => "info"@,
    }
}

/// The code of `c` with ASCII capitals lowered.
pub open spec fn lower_code(c: char) -> u32 {
    if 65 <= (c as u32) && (c as u32) <= 90 {
        ((c as u32) + 32) as u32
    } else {
        c as u32
    }
}

/// `s` equals the lowercase text `t` once ASCII capitals in `s` are lowered.
pub open spec fn lower_matches(s: Seq<char>, t: Seq<char>) -> bool {
    s.len() == t.len() && forall|i: int| 0 <= i < s.len() ==> lower_code(#[trigger] s[i]) == t[i] as u32
}

/// Reading a severity: its name in any letter case; anything else is
/// refused with a message that quotes the input.
pub open spec fn spec_parse_severity(s: Seq<char>) -> Result<Severity, Seq<char>> {
    if lower_matches(s, "critical"@) {
        Ok(Severity::Critical)
    } else if lower_matches(s, "warning"@) {
        Ok(Severity::Warning)
    } else if lower_matches(s, "info"@) {
        Ok(Severity::Info)
    } else {
        Err("Invalid severity: "@ + s)
    }
}

fn lower_matches_exec(s: &Vec<char>, t: &Vec<char>) -> (r: bool)
    ensures
        r == lower_matches(s@, t@),
{
    if s.len() != t.len() {
        return false;
    }
    let mut i: usize = 0;
    while i < s.len()
        invariant
            i <= s@.len(),
            s@.len() == t@.len(),
            forall|j: int| 0 <= j < i ==> lower_code(#[trigger] s@[j]) == t@[j] as u32,
        decreases s@.len() - i,
    {
        let c = s[i] as u32;
        let l: u32 = if 65 <= c && c <= 90 {
            c + 32
        } else {
            c
        };
        if l != t[i] as u32 {
            return false;
        }
        i = i + 1;
    }
    true
}

impl Severity {
    /// The severity's name: `critical`, `warning` or `info`.
    pub fn to_string(&self) -> (r: String)
        ensures
            r@ == severity_name(*self),
    {
        match self {
            Severity::Critical => String::from_str("critical"),
            Severity::Warning => String::from_str("warning"),
            Severity::Info => String::from_str("info"),
        }
    }

    /// Reads a severity from its name, ignoring ASCII letter case.
    pub fn parse(s: &str) -> (r: Result<Severity, String>)
        ensures
            match r {
                Ok(v) => spec_parse_severity(s@) == Ok::<Severity, Seq<char>>(v),
                Err(e) => spec_parse_severity(s@) == Err::<Severity, Seq<char>>(e@),
            },
    {
        let cs = chars_of(s);
        if lower_matches_exec(&cs, &chars_of("critical")) {
            Ok(Severity::Critical)
        } else if lower_matches_exec(&cs, &chars_of("warning")) {
            Ok(Severity::Warning)
        } else if lower_matches_exec(&cs, &chars_of("info")) {
            Ok(Severity::Info)
        } else {
            Err(concat_str("Invalid severity: ", s))
        }
    }
}

impl std::str::FromStr for Severity {
    type Err = String;

    fn from_str(s: &str) -> (r: Result<Severity, String>)
        ensures
            match r {
                Ok(v) => spec_parse_severity(s@) == Ok::<Severity, Seq<char>>(v),
                Err(e) => spec_parse_severity(s@) == Err::<Severity, Seq<char>>(e@),
            },
    {
        Severity::parse(s)
    }
}

/// What a tool call's optional severity argument stands for: the severity
/// named, or an error message that repeats the reading error after
/// `Invalid severity: `.
pub open spec fn spec_severity_filter(s: Option<Seq<char>>) -> Result<Option<Severity>, Seq<char>> {
    match s {
        None => Ok(None),
        Some(x) => match spec_parse_severity(x) {
            Ok(v) => Ok(Some(v)),
            Err(e) => Err("Invalid severity: "@ + e),
        },
    }
}

/// Reads a tool call's optional severity argument.
pub fn severity_filter(s: Option<&str>) -> (r: Result<Option<Severity>, String>)
    ensures
        match r {
            Ok(v) => spec_severity_filter(match s {
                Some(x) => Some(x@),
                None => None,
            }) == Ok::<Option<Severity>, Seq<char>>(v),
            Err(e) => spec_severity_filter(match s {
                Some(x) => Some(x@),
                None => None,
            }) == Err::<Option<Severity>, Seq<char>>(e@),
        },
{
    match s {
        None => Ok(None),
        Some(x) => match Severity::parse(x) {
            Ok(v) => Ok(Some(v)),
            Err(e) => Err(concat_str("Invalid severity: ", e.as_str())),
        },
    }
}

/// Reads a tool call's severity argument, `Info` where none is given.
pub fn severity_or_info(s: Option<&str>) -> (r: Result<Severity, String>)
    ensures
        match spec_severity_filter(match s {
            Some(x) => Some(x@),
            None => None,
        }) {
            Ok(Some(v)) => r == Ok::<Severity, String>(v),
            Ok(None) => r == Ok::<Severity, String>(Severity::Info),
            Err(e) => r matches Err(m) && m@ == e,
        },
{
    match severity_filter(s)? {
        Some(v) => Ok(v),
        None => Ok(Severity::Info),
    }
}

/// Reading a severity ignores letter case: two texts that agree once ASCII
/// capitals are lowered name the same severity, or both name none.
pub proof fn lemma_severity_case_insensitive(s: Seq<char>, t: Seq<char>)
    requires
        s.len() == t.len(),
        forall|i: int| 0 <= i < s.len() ==> lower_code(#[trigger] s[i]) == lower_code(t[i]),
    ensures
        spec_parse_severity(s) is Ok <==> spec_parse_severity(t) is Ok,
        spec_parse_severity(s) is Ok ==> spec_parse_severity(s) == spec_parse_severity(t),
{
    assert forall|n: Seq<char>| #[trigger] lower_matches(s, n) <==> lower_matches(t, n) by {
        if lower_matches(s, n) {
            assert forall|i: int| 0 <= i < t.len() implies lower_code(#[trigger] t[i]) == n[i] as u32 by {
                assert(lower_code(s[i]) == n[i] as u32);
            }
        }
        if lower_matches(t, n) {
            assert forall|i: int| 0 <= i < s.len() implies lower_code(#[trigger] s[i]) == n[i] as u32 by {
                assert(lower_code(t[i]) == n[i] as u32);
            }
        }
    }
    assert(lower_matches(s, "critical"@) <==> lower_matches(t, "critical"@));
    assert(lower_matches(s, "warning"@) <==> lower_matches(t, "warning"@));
    assert(lower_matches(s, "info"@) <==> lower_matches(t, "info"@));
}

/// A severity read back from its own name is that severity.
pub proof fn lemma_severity_roundtrip(s: Severity)
    ensures
        spec_parse_severity(severity_name(s)) == Ok::<Severity, Seq<char>>(s),
{
    reveal_strlit("critical");
    reveal_strlit("warning");
    reveal_strlit("info");
    let n = severity_name(s);
    assert(lower_matches(n, n));
    match s {
        Severity::Critical => {},
        Severity::Warning => {
            assert(!lower_matches(n, "critical"@));
        },
        Severity::Info => {
            assert(!lower_matches(n, "critical"@));
            assert(!lower_matches(n, "warning"@));
        },
    }
}

} // verus!
