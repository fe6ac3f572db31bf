//! Validation and arithmetic behind the budget commands; the budget store
//! itself lives with the host.

use vstd::prelude::*;
use vstd::string::StrSliceExecFns;
use vstd::string::StringExecFns;
use crate::amount::{amount_parse_spec, amount_from_str, Amount};
use crate::text::{append_str, trim, trim_spec};

verus! {

/// Checks a budget command's inputs: the amount must parse and the
/// category must not be blank, reported in that order.
pub fn validate_budget_input(category: &str, amount_str: &str) -> (r: Result<Amount, String>)
    ensures
        r is Ok <==> amount_parse_spec(amount_str@) is Some && trim_spec(category@).len() > 0,
        r matches Ok(a) ==> amount_parse_spec(amount_str@) == Some(a.cents as int) && a.bounded(),
        r matches Err(e) ==> e@ == (if amount_parse_spec(amount_str@) is None {
            "Invalid budget amount '"@ + amount_str@ + "'. Must be a valid number"@
        } else {
            "Category cannot be empty"@
        }),
{
    let amount = match amount_from_str(amount_str) {
        Some(a) => a,
        None => {
            let mut msg = String::from_str("Invalid budget amount '");
            append_str(&mut msg, amount_str);
            append_str(&mut msg, "'. Must be a valid number");
            return Err(msg);
        },
    };
    let t = trim(category);
    if t.unicode_len() == 0 {
        return Err(String::from_str("Category cannot be empty"));
    }
    Ok(amount)
}

/// The stored amount after an increase: the current value, or zero when
/// none is stored yet, plus the delta.
pub fn increased_amount(current: Option<Amount>, delta: Amount) -> (r: Amount)
    requires
        current matches Some(a) ==> a.bounded(),
        delta.bounded(),
    ensures
        r.cents == (match current {
            Some(a) => a.cents as int,
            None => 0int,
        }) + delta.cents,
{
    let base = match current {
        Some(a) => a,
        None => Amount::zero(),
    };
    base.plus(&delta)
}

/// The stored amount after a decrease, refused when it would go negative.
pub fn decreased_amount(current: Option<Amount>, delta: Amount) -> (r: Result<Amount, String>)
    requires
        current matches Some(a) ==> a.bounded(),
        delta.bounded(),
    ensures
        ({
            let base = (match current {
                Some(a) => a.cents as int,
                None => 0int,
            });
            &&& (r is Ok <==> base - delta.cents >= 0)
            &&& (r matches Ok(a) ==> a.cents == base - delta.cents)
            &&& (r matches Err(e) ==> e@ == "Budget cannot be negative"@)
        }),
{
    let base = match current {
        Some(a) => a,
        None => Amount::zero(),
    };
    let next = base.minus(&delta);
    if next.is_negative() {
        Err(String::from_str("Budget cannot be negative"))
    } else {
        Ok(next)
    }
}

/// Checks the category given to a budget deletion.
pub fn validate_budget_category(category: &str) -> (r: Result<(), String>)
    ensures
        r is Ok <==> trim_spec(category@).len() > 0,
        r matches Err(e) ==> e@ == "Category cannot be empty"@,
{
    let t = trim(category);
    if t.unicode_len() == 0 {
        Err(String::from_str("Category cannot be empty"))
    } else {
        Ok(())
    }
}

} // verus!
