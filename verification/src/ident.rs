//! Identities for new rows.

use vstd::prelude::*;

verus! {

/// Whether `used` may be the identity under which a row is stored that was
/// handed over under the identity `given`: the given one or, where none was
/// given, one that was drawn, which is 36 characters long.
pub open spec fn identity_for(given: Seq<char>, used: Seq<char>) -> bool {
    if given.len() > 0 {
        used == given
    } else {
        used.len() == 36
    }
}

/// Has `uuid::Uuid::new_v4` draw a random identity and writes it in the
/// hyphenated form, which is 36 characters long. Which identity comes is
/// chance: claimed is only the length.
#[verifier::external_body]
pub(crate) fn fresh_id() -> (id: String)
    ensures
        id@.len() == 36,
{
    uuid::Uuid::new_v4().to_string()
}

} // verus!
