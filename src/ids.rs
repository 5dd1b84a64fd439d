use vstd::prelude::*;

verus! {

/// Relies on uuid's `Uuid::new_v4` and its `Display`, which writes the
/// hyphenated form: a fresh random id of 36 characters.
#[verifier::external_body]
pub(crate) fn random_id() -> (r: String)
    ensures
        r@.len() == 36,
{
    uuid::Uuid::new_v4().to_string()
}

} // verus!
