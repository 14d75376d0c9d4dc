//! Fresh identifiers for catalog entries and tracked folders.

use vstd::prelude::*;

verus! {

/// Relies on uuid's `Uuid::new_v4` and its `Display` form: draws a fresh
/// random version-4 UUID and formats it. The result is random; nothing is
/// assumed about its value, and every function that consumes a fresh id is
/// verified for all possible values.
#[verifier::external_body]
pub fn fresh_uuid() -> (r: String) {
    uuid::Uuid::new_v4().to_string()
}

} // verus!
