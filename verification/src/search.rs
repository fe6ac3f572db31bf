//! Validation behind the category search; the lookup itself is the record
//! store's SQL.

use vstd::prelude::*;
use vstd::string::StrSliceExecFns;
use vstd::string::StringExecFns;
use crate::text::{trim, trim_spec};

verus! {

/// Checks the category given to a search.
pub fn validate_search_category(category: &str) -> (r: Result<(), String>)
    ensures
        r is Ok <==> trim_spec(category@).len() > 0,
        r matches Err(e) ==> e@ == "Category cannot be empty"@,
{
    let t = trim(category);
    if t.unicode_len() == 0 {
        Err(String::from_str("Category cannot be empty"))
    } else {
        Ok(())
    }
}

} // verus!
