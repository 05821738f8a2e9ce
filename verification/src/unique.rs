//! Fresh identifiers.

use vstd::prelude::*;

verus! {

/// `uuid::Uuid::new_v4`, as text: thirty-six characters. Nothing else is claimed
/// of a random identifier.
#[verifier::external_body]
pub(crate) fn fresh_id() -> (res: String)
    ensures
        res@.len() == 36,
{
    uuid::Uuid::new_v4().to_string()
}

} // verus!
