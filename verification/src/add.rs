//! Building a new record from one line of user input:
//! `date, description, amount, type, category`.

use vstd::prelude::*;
use vstd::string::StrSliceExecFns;
use vstd::string::StringExecFns;
use crate::amount::{amount_parse_spec, amount_from_str, Amount};
use crate::date::{iso_date_spec, parse_iso_date};
use crate::ids::fresh_uuid_string;
use crate::model::{Transaction, TransactionType};
use crate::text::{
    split_at, split_char, trim, trim_spec, lower_of, to_lowercase, dec_str, append_dec,
    append_str,
};

verus! {

/// The input line's comma-separated fields, each trimmed, after trimming
/// the line itself.
pub open spec fn input_parts(s: Seq<char>) -> Seq<Seq<char>> {
    split_at(trim_spec(s), ',').map_values(|p: Seq<char>| trim_spec(p))
}

/// The record kind a field names, case-insensitively.
pub open spec fn kind_of_text(p: Seq<char>) -> Option<TransactionType> {
    if lower_of(p) == "income"@ {
        Some(TransactionType::Income)
    } else if lower_of(p) == "expense"@ {
        Some(TransactionType::Expense)
    } else {
        Option::<TransactionType>::None
    }
}

/// Whether an input line yields a record.
pub open spec fn create_ok(s: Seq<char>) -> bool {
    let ps = input_parts(s);
    &&& ps.len() == 5
    &&& iso_date_spec(ps[0]) is Some
    &&& amount_parse_spec(ps[2]) is Some
    &&& kind_of_text(ps[3]) is Some
    &&& ps[1].len() <= 255
    &&& ps[4].len() <= 50
}

/// The message reported for an input line that yields no record; checks run
/// in the order count, date, amount, type, description, category.
pub open spec fn create_err_text(s: Seq<char>) -> Seq<char> {
    let ps = input_parts(s);
    if ps.len() != 5 {
        "Invalid number of details provided. Expected 5 details separated by commas but got "@
            + dec_str(ps.len() as int)
    } else if iso_date_spec(ps[0]) is None {
        "Invalid date format. Please use YYYY-MM-DD."@
    } else if amount_parse_spec(ps[2]) is None {
        "Invalid amount format "@ + ps[2] + ". Please provide a valid decimal number."@
    } else if kind_of_text(ps[3]) is None {
        "Invalid transaction type. Use 'income' or 'expense'."@
    } else if ps[1].len() > 255 {
        "Description too long"@
    } else {
        "Category too long"@
    }
}

/// The record a well-formed input line describes: every field read from
/// its part, under a fresh 36-character id.
pub open spec fn built_from(tx: Transaction, s: Seq<char>) -> bool {
    let ps = input_parts(s);
    &&& iso_date_spec(ps[0]) == Some(tx.date)
    &&& tx.description@ == ps[1]
    &&& amount_parse_spec(ps[2]) == Some(tx.amount.cents as int)
    &&& kind_of_text(ps[3]) == Some(tx.transaction_type)
    &&& tx.category@ == ps[4]
    &&& tx.id@.len() == 36
    &&& tx.valid()
}

/// Parses one input line into a record with a fresh random id, or reports
/// what is wrong with it.
pub fn create_transaction(input: &str) -> (r: Result<Transaction, String>)
    ensures
        r is Ok <==> create_ok(input@),
        r matches Ok(tx) ==> built_from(tx, input@),
        r matches Err(e) ==> e@ == create_err_text(input@),
{
    let details = trim(input);
    let raw_parts = split_char(details, ',');
    let mut parts: Vec<String> = Vec::new();
    let mut i: usize = 0;
    while i < raw_parts.len()
        invariant
            0 <= i <= raw_parts.len(),
            parts@.len() == i,
            forall|k: int|
                0 <= k < i ==> #[trigger] parts@[k]@ == trim_spec(raw_parts.deep_view()[k]),
        decreases raw_parts.len() - i,
    {
        let p = trim(raw_parts[i].as_str()).to_owned();
        parts.push(p);
        i = i + 1;
    }
    proof {
        assert(parts.deep_view() =~~= input_parts(input@));
    }
    if parts.len() != 5 {
        let mut msg = String::from_str(
            "Invalid number of details provided. Expected 5 details separated by commas but got ",
        );
        append_dec(&mut msg, parts.len() as u64);
        return Err(msg);
    }
    let date = match parse_iso_date(parts[0].as_str()) {
        Some(d) => d,
        None => {
            return Err(String::from_str("Invalid date format. Please use YYYY-MM-DD."));
        },
    };
    let amount = match amount_from_str(parts[2].as_str()) {
        Some(a) => a,
        None => {
            let mut msg = String::from_str("Invalid amount format ");
            append_str(&mut msg, parts[2].as_str());
            append_str(&mut msg, ". Please provide a valid decimal number.");
            return Err(msg);
        },
    };
    let kind_text = to_lowercase(parts[3].as_str());
    let income_text = String::from_str("income");
    let expense_text = String::from_str("expense");
    let transaction_type = if kind_text.eq(&income_text) {
        TransactionType::Income
    } else if kind_text.eq(&expense_text) {
        TransactionType::Expense
    } else {
        return Err(String::from_str("Invalid transaction type. Use 'income' or 'expense'."));
    };
    if parts[1].as_str().unicode_len() > 255 {
        return Err(String::from_str("Description too long"));
    }
    if parts[4].as_str().unicode_len() > 50 {
        return Err(String::from_str("Category too long"));
    }
    let id = fresh_uuid_string();
    let description = parts[1].clone();
    let category = parts[4].clone();
    Ok(Transaction { id, date, description, amount, transaction_type, category })
}

} // verus!
