//! The record types the whole library works over.

use vstd::prelude::*;
use crate::amount::Amount;
use crate::date::Date;

verus! {

/// Whether a record adds to or draws from the balance. Reports aggregate
/// expenses only.
#[derive(Debug, Clone, Copy, PartialEq, Eq, Structural)]
pub enum TransactionType {
    Income,
    Expense,
}

/// One financial record, as the record source hands it over.
#[derive(Debug, Clone)]
pub struct Transaction {
    pub id: String,
    pub date: Date,
    pub description: String,
    pub amount: Amount,
    pub transaction_type: TransactionType,
    pub category: String,
}

impl Transaction {
    /// A record the library can work with: a real date and a bounded amount.
    pub open spec fn valid(self) -> bool {
        self.date.valid() && self.amount.bounded()
    }

    pub fn new(
        id: String,
        date: Date,
        description: String,
        amount: Amount,
        transaction_type: TransactionType,
        category: String,
    ) -> (t: Transaction)
        ensures
            t.id == id,
            t.date == date,
            t.description == description,
            t.amount == amount,
            t.transaction_type == transaction_type,
            t.category == category,
    {
        Transaction { id, date, description, amount, transaction_type, category }
    }

    /// A field-for-field copy, for the details snapshot.
    pub fn duplicate(&self) -> (t: Transaction)
        ensures
            t.id == self.id,
            t.date == self.date,
            t.description == self.description,
            t.amount == self.amount,
            t.transaction_type == self.transaction_type,
            t.category == self.category,
    {
        Transaction {
            id: self.id.clone(),
            date: self.date,
            description: self.description.clone(),
            amount: self.amount,
            transaction_type: self.transaction_type,
            category: self.category.clone(),
        }
    }
}

/// A per-category spending limit, as the budget store hands it over.
#[derive(Debug, Clone)]
pub struct CategoryBudget {
    pub id: i32,
    pub category: String,
    pub amount: Amount,
}

/// No two records of a snapshot share an id; the browse sort relies on it.
pub open spec fn unique_ids(records: Seq<Transaction>) -> bool {
    forall|i: int, j: int|
        0 <= i < records.len() && 0 <= j < records.len() && i != j ==> #[trigger] records[i].id@
            != #[trigger] records[j].id@
}

/// Every record of a snapshot is one the library can work with.
pub open spec fn all_valid(records: Seq<Transaction>) -> bool {
    forall|i: int| 0 <= i < records.len() ==> (#[trigger] records[i]).valid()
}

} // verus!
