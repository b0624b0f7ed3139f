//! The library's error type.
use crate::text::starts_with;
use vstd::prelude::*;

verus! {

#[verifier::external_type_specification]
#[verifier::external_body]
pub struct ExRusqliteError(rusqlite::Error);

#[verifier::external_type_specification]
#[verifier::external_body]
pub struct ExIoError(std::io::Error);

#[verifier::external_type_specification]
#[verifier::external_body]
pub struct ExJsonError(serde_json::Error);

/// Everything that can go wrong in this library.
#[derive(Debug)]
pub enum AmpError {
    Storage(rusqlite::Error),
    Embedding(String),
    Indexing(String),
    Config(String),
    Io(std::io::Error),
    Serialization(serde_json::Error),
    Other(String),
}

pub type Result<T> = std::result::Result<T, AmpError>;

/// The text that `rusqlite::Error`'s `Display` gives; the message is made by
/// rusqlite and nothing is claimed of it.
#[verifier::external_body]
fn rusqlite_error_text(e: &rusqlite::Error) -> String {
    e.to_string()
}

/// The text that `std::io::Error`'s `Display` gives; nothing is claimed of it.
#[verifier::external_body]
fn io_error_text(e: &std::io::Error) -> String {
    e.to_string()
}

/// The text that `serde_json::Error`'s `Display` gives; nothing is claimed of it.
#[verifier::external_body]
fn json_error_text(e: &serde_json::Error) -> String {
    e.to_string()
}

/// `prefix` followed by `rest`.
pub fn concat_str(prefix: &str, rest: &str) -> (r: String)
    ensures
        r@ == prefix@ + rest@,
{
    let mut s = String::from_str(prefix);
    s.append(rest);
    s
}

impl AmpError {
    /// The error's message: the kind of error, then its detail.
    pub fn message(&self) -> (r: String)
        ensures
            match self {
                AmpError::Storage(_) => starts_with(r@, "Storage error: "@),
                AmpError::Embedding(s) => r@ == "Embedding error: "@ + s@,
                AmpError::Indexing(s) => r@ == "Indexing error: "@ + s@,
                AmpError::Config(s) => r@ == "Config error: "@ + s@,
                AmpError::Io(_) => starts_with(r@, "IO error: "@),
                AmpError::Serialization(_) => starts_with(r@, "Serialization error: "@),
                AmpError::Other(s) => r@ == s@,
            },
    {
        match self {
            AmpError::Storage(e) => {
                let t = rusqlite_error_text(e);
                let r = concat_str("Storage error: ", t.as_str());
                assert(r@.subrange(0, "Storage error: "@.len() as int) =~= "Storage error: "@);
                r
            },
            AmpError::Embedding(s) => concat_str("Embedding error: ", s.as_str()),
            AmpError::Indexing(s) => concat_str("Indexing error: ", s.as_str()),
            AmpError::Config(s) => concat_str("Config error: ", s.as_str()),
            AmpError::Io(e) => {
                let t = io_error_text(e);
                let r = concat_str("IO error: ", t.as_str());
                assert(r@.subrange(0, "IO error: "@.len() as int) =~= "IO error: "@);
                r
            },
            AmpError::Serialization(e) => {
                let t = json_error_text(e);
                let r = concat_str("Serialization error: ", t.as_str());
                assert(r@.subrange(0, "Serialization error: "@.len() as int)
                    =~= "Serialization error: "@);
                r
            },
            AmpError::Other(s) => s.clone(),
        }
    }
}

impl From<rusqlite::Error> for AmpError {
    fn from(e: rusqlite::Error) -> (r: Self) {
        AmpError::Storage(e)
    }
}

impl vstd::std_specs::convert::FromSpecImpl<rusqlite::Error> for AmpError {
    open spec fn obeys_from_spec() -> bool {
        true
    }

    open spec fn from_spec(v: rusqlite::Error) -> Self {
        AmpError::Storage(v)
    }
}

impl From<std::io::Error> for AmpError {
    fn from(e: std::io::Error) -> (r: Self) {
        AmpError::Io(e)
    }
}

impl vstd::std_specs::convert::FromSpecImpl<std::io::Error> for AmpError {
    open spec fn obeys_from_spec() -> bool {
        true
    }

    open spec fn from_spec(v: std::io::Error) -> Self {
        AmpError::Io(v)
    }
}

impl From<serde_json::Error> for AmpError {
    fn from(e: serde_json::Error) -> (r: Self) {
        AmpError::Serialization(e)
    }
}

impl vstd::std_specs::convert::FromSpecImpl<serde_json::Error> for AmpError {
    open spec fn obeys_from_spec() -> bool {
        true
    }

    open spec fn from_spec(v: serde_json::Error) -> Self {
        AmpError::Serialization(v)
    }
}

} // verus!
