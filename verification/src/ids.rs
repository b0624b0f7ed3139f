//! Fresh identifiers for stored records.
use vstd::prelude::*;

verus! {

/// A fresh random identifier: `uuid::Uuid::new_v4()` in its hyphenated text
/// form, which the uuid documentation gives as 36 characters. Which value
/// comes back is random, so nothing more is claimed of it.
#[verifier::external_body]
pub fn new_uuid_v4() -> (r: String)
    ensures
        r@.len() == 36,
{
    uuid::Uuid::new_v4().to_string()
}

} // verus!
