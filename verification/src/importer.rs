//! Importing records from CSV text; the file reading and the database
//! inserts live with the host.

use vstd::prelude::*;
use vstd::string::StrSliceExecFns;
use vstd::string::StringExecFns;
use crate::add::{built_from, create_ok, create_transaction, create_err_text};
use crate::model::Transaction;
use crate::text::{append_dec, append_str, dec_str};

verus! {

/// The file formats the import command understands.
#[derive(Debug, Clone, Copy, PartialEq, Eq, Structural)]
pub enum ImportFormat {
    CSV,
}

/// Name for what the csv reader yields on a text: its records' fields,
/// which depend on the characters alone.
pub uninterp spec fn csv_rows_of(s: Seq<char>) -> Seq<Seq<Seq<char>>>;

/// Relies on csv's `Reader` (trimming, no header row): splits the text
/// into records of fields, a function of the characters alone; a malformed
/// text is reported instead.
#[verifier::external_body]
fn parse_csv_records(text: &str) -> (r: Result<Vec<Vec<String>>, String>)
    ensures
        r matches Ok(rows) ==> rows.deep_view() == csv_rows_of(text@),
{
    let mut reader = csv::ReaderBuilder::new().trim(csv::Trim::All).has_headers(false)
        .from_reader(text.as_bytes());
    let mut rows: Vec<Vec<String>> = Vec::new();
    for (line, record) in reader.records().enumerate() {
        match record {
            Ok(rec) => rows.push(rec.iter().map(|f| f.to_string()).collect()),
            Err(e) => {
                return Err(format!("CSV parse error on line {}: {}", line + 1, e));
            },
        }
    }
    Ok(rows)
}

/// One record's fields joined back into the comma-separated line the
/// record builder reads.
pub open spec fn join_fields(row: Seq<Seq<char>>) -> Seq<char>
    decreases row.len(),
{
    if row.len() == 0 {
        Seq::<char>::empty()
    } else if row.len() == 1 {
        row[0]
    } else {
        join_fields(row.drop_last()) + seq![','] + row.last()
    }
}

/// Joins a record's fields with commas.
fn join_commas(row: &Vec<String>) -> (r: String)
    ensures
        r@ == join_fields(row.deep_view()),
{
    let n = row.len();
    let mut out = String::new();
    let mut k: usize = 0;
    while k < n
        invariant
            0 <= k <= n,
            n == row@.len(),
            out@ == join_fields(row.deep_view().subrange(0, k as int)),
        decreases n - k,
    {
        proof {
            let pre = row.deep_view().subrange(0, k as int);
            let post = row.deep_view().subrange(0, k + 1);
            assert(post.drop_last() =~= pre);
            assert(post.last() == row.deep_view()[k as int]);
            assert(row.deep_view()[k as int] == row@[k as int]@);
        }
        if k > 0 {
            crate::text::push_char(&mut out, ',');
        }
        append_str(&mut out, row[k].as_str());
        k = k + 1;
        proof {
            if k == 1 {
                assert(row.deep_view().subrange(0, 1)[0] == row.deep_view()[0]);
                assert(out@ =~= join_fields(row.deep_view().subrange(0, k as int)));
            }
        }
    }
    proof {
        assert(row.deep_view().subrange(0, n as int) =~= row.deep_view());
    }
    out
}

/// Whether every CSV record has five columns and builds a record.
pub open spec fn rows_ok(rows: Seq<Seq<Seq<char>>>) -> bool {
    forall|k: int|
        0 <= k < rows.len() ==> (#[trigger] rows[k]).len() == 5 && create_ok(join_fields(rows[k]))
}

/// The import error for the first bad record, line numbers starting at 1:
/// a wrong column count, or what the record builder objects to.
pub open spec fn row_err_text(row: Seq<Seq<char>>, line: int) -> Seq<char> {
    if row.len() != 5 {
        "Invalid number of columns on line "@ + dec_str(line) + ": expected 5, got "@ + dec_str(
            row.len() as int,
        )
    } else {
        "Line "@ + dec_str(line) + ": "@ + create_err_text(join_fields(row))
    }
}

/// Builds one record per CSV row, stopping at the first row that fails;
/// rows are rejoined with commas and read exactly as typed-in records are.
pub fn transactions_from_rows(rows: &Vec<Vec<String>>) -> (r: Result<Vec<Transaction>, String>)
    ensures
        r is Ok <==> rows_ok(rows.deep_view()),
        r matches Ok(v) ==> {
            &&& v@.len() == rows.deep_view().len()
            &&& forall|k: int|
                0 <= k < v@.len() ==> built_from(
                    #[trigger] v@[k],
                    join_fields(rows.deep_view()[k]),
                )
        },
        r matches Err(e) ==> exists|k: int|
            {
                &&& 0 <= k < rows.deep_view().len()
                &&& !((#[trigger] rows.deep_view()[k]).len() == 5 && create_ok(
                    join_fields(rows.deep_view()[k]),
                ))
                &&& (forall|j: int|
                    0 <= j < k ==> (#[trigger] rows.deep_view()[j]).len() == 5 && create_ok(
                        join_fields(rows.deep_view()[j]),
                    ))
                &&& e@ == row_err_text(rows.deep_view()[k], k + 1)
            },
{
    let n = rows.len();
    let mut out: Vec<Transaction> = Vec::new();
    let mut k: usize = 0;
    while k < n
        invariant
            0 <= k <= n,
            n == rows@.len(),
            out@.len() == k,
            forall|j: int|
                0 <= j < k ==> (#[trigger] rows.deep_view()[j]).len() == 5 && create_ok(
                    join_fields(rows.deep_view()[j]),
                ),
            forall|j: int|
                0 <= j < k ==> built_from(#[trigger] out@[j], join_fields(rows.deep_view()[j])),
        decreases n - k,
    {
        let row = &rows[k];
        proof {
            assert(rows.deep_view()[k as int] == row.deep_view());
        }
        if row.len() != 5 {
            let mut msg = String::from_str("Invalid number of columns on line ");
            append_dec(&mut msg, (k + 1) as u64);
            append_str(&mut msg, ": expected 5, got ");
            append_dec(&mut msg, row.len() as u64);
            proof {
                assert(rows.deep_view()[k as int].len() == row@.len());
            }
            return Err(msg);
        }
        let joined = join_commas(row);
        match create_transaction(joined.as_str()) {
            Ok(tx) => {
                out.push(tx);
            },
            Err(e) => {
                let mut msg = String::from_str("Line ");
                append_dec(&mut msg, (k + 1) as u64);
                append_str(&mut msg, ": ");
                append_str(&mut msg, e.as_str());
                return Err(msg);
            },
        }
        k = k + 1;
    }
    Ok(out)
}

/// Imports records from CSV text: what the csv reader yields, built row
/// by row. The reader decides whether the text parses; whatever it
/// returns, the rows are then checked and built exactly as
/// `transactions_from_rows` states.
pub fn transactions_from_csv_text(text: &str) -> (r: Result<Vec<Transaction>, String>)
    ensures
        r matches Ok(v) ==> {
            &&& rows_ok(csv_rows_of(text@))
            &&& v@.len() == csv_rows_of(text@).len()
            &&& forall|k: int|
                0 <= k < v@.len() ==> built_from(
                    #[trigger] v@[k],
                    join_fields(csv_rows_of(text@)[k]),
                )
        },
{
    let rows = match parse_csv_records(text) {
        Ok(rows) => rows,
        Err(e) => {
            return Err(e);
        },
    };
    transactions_from_rows(&rows)
}

} // verus!
