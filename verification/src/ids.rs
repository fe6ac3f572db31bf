//! Record identifiers, backed by the uuid crate.

use vstd::prelude::*;

verus! {

/// Relies on uuid's `Uuid::new_v4` and its `Display` impl: a freshly drawn
/// random id, printed in the 36-character hyphenated form. Nothing more can
/// be said of a random value.
#[verifier::external_body]
pub fn fresh_uuid_string() -> (r: String)
    ensures
        r@.len() == 36,
{
    uuid::Uuid::new_v4().to_string()
}

/// Name for what `Uuid::parse_str` followed by `Display` yields: whether a
/// text parses, and its canonical hyphenated form, depend on the characters
/// alone.
pub uninterp spec fn uuid_canon_of(s: Seq<char>) -> Option<Seq<char>>;

/// Relies on uuid's `Uuid::parse_str` and its `Display` impl: accepts or
/// rejects by the characters alone; an accepted id comes back in canonical
/// lowercase hyphenated form.
#[verifier::external_body]
pub fn parse_uuid_canonical(s: &str) -> (r: Option<String>)
    ensures
        match r {
            Some(t) => uuid_canon_of(s@) == Some(t@),
            None => uuid_canon_of(s@) is None,
        },
{
    match uuid::Uuid::parse_str(s) {
        Ok(u) => Some(u.to_string()),
        Err(_) => None,
    }
}

} // verus!
