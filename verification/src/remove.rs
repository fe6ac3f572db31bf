//! Validation behind record removal: the id must be a well-formed UUID,
//! handed on in its canonical form.

use vstd::prelude::*;
use vstd::string::StrSliceExecFns;
use vstd::string::StringExecFns;
use crate::ids::{parse_uuid_canonical, uuid_canon_of};

verus! {

/// Checks a removal request's id text and canonicalizes it; the host then
/// deletes the record under the returned id.
pub fn parse_remove_id(input: &str) -> (r: Result<String, String>)
    ensures
        input@.len() == 0 ==> (r matches Err(e) && e@ == "Transaction ID cannot be empty."@),
        input@.len() > 0 ==> match r {
            Ok(id) => uuid_canon_of(input@) == Some(id@),
            Err(e) => uuid_canon_of(input@) is None && e@
                == "Invalid transaction ID format. Please provide a valid UUID."@,
        },
{
    if input.unicode_len() == 0 {
        return Err(String::from_str("Transaction ID cannot be empty."));
    }
    match parse_uuid_canonical(input) {
        Some(id) => Ok(id),
        None => Err(
            String::from_str("Invalid transaction ID format. Please provide a valid UUID."),
        ),
    }
}

} // verus!
