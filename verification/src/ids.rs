//! The source of fresh connection identifiers.

use vstd::prelude::*;

verus! {

/// Relies on `uuid::Uuid::new_v4` and its `Display` impl: a random
/// version-4 UUID formatted in the hyphenated form, which is always 36
/// characters.  Nothing more is promised: the value is random.
#[verifier::external_body]
pub fn generate_unique_id() -> (r: String)
    ensures
        r@.len() == 36,
{
    uuid::Uuid::new_v4().to_string()
}

} // verus!
