//! The calls into serde_json: tag lists and checkpoint state to and from
//! JSON text.
use vstd::prelude::*;

verus! {

#[verifier::external_type_specification]
#[verifier::external_body]
pub struct ExJsonValue(serde_json::Value);

/// `serde_json::Value::clone`: `Value`'s `Clone` is derived, so the copy is
/// the same JSON value.
pub assume_specification[ <serde_json::Value as Clone>::clone ](v: &serde_json::Value) -> (r: serde_json::Value)
    ensures
        r == *v,
;

/// The character views of a list of strings.
pub open spec fn strings_view(v: Seq<String>) -> Seq<Seq<char>> {
    v.map_values(|s: String| s@)
}

/// The JSON text serde_json writes for a list of strings.
pub uninterp spec fn spec_json_of_strings(v: Seq<Seq<char>>) -> Seq<char>;

/// The list of strings serde_json reads from JSON text, or `None` where the
/// text is not a JSON array of strings.
pub uninterp spec fn spec_strings_of_json(s: Seq<char>) -> Option<Seq<Seq<char>>>;

/// `serde_json::to_string` of a list of strings. The text depends on the
/// strings alone, and serde_json reads the same strings back from it. It
/// does not fail: serde_json's documentation names as the only causes of
/// failure a `Serialize` impl that fails and a map with non-string keys,
/// and the impls for `Vec` and `String` into an in-memory buffer never fail.
#[verifier::external_body]
pub fn strings_to_json(v: &Vec<String>) -> (r: std::result::Result<String, serde_json::Error>)
    ensures
        r is Ok,
        r matches Ok(t) ==> t@ == spec_json_of_strings(strings_view(v@)),
        r matches Ok(t) ==> spec_strings_of_json(t@) == Some(strings_view(v@)),
{
    serde_json::to_string(v)
}

/// `serde_json::from_str` into a list of strings, `None` on any error; the
/// result depends on the text alone.
#[verifier::external_body]
pub fn strings_from_json(s: &str) -> (r: Option<Vec<String>>)
    ensures
        match spec_strings_of_json(s@) {
            Some(l) => r matches Some(v) && strings_view(v@) == l,
            None => r is None,
        },
{
    match serde_json::from_str::<Vec<String>>(s) {
        Ok(v) => Some(v),
        Err(_) => None,
    }
}

/// `serde_json::to_string` of a JSON value. The value is opaque here, so
/// nothing is claimed of the text.
#[verifier::external_body]
pub fn value_to_json(v: &serde_json::Value) -> std::result::Result<String, serde_json::Error> {
    serde_json::to_string(v)
}

/// `serde_json::from_str` into a JSON value, `None` on any error. The value
/// is opaque here, so nothing is claimed of it.
#[verifier::external_body]
pub fn value_from_json(s: &str) -> Option<serde_json::Value> {
    match serde_json::from_str::<serde_json::Value>(s) {
        Ok(v) => Some(v),
        Err(_) => None,
    }
}

/// An empty JSON object, `serde_json::Value::Object` of a new map.
#[verifier::external_body]
pub fn empty_json_object() -> serde_json::Value {
    serde_json::Value::Object(serde_json::Map::new())
}

} // verus!
