//! The Treeline sink's part that is not database work: finding the
//! account by name, and the row each transaction becomes.
use vstd::prelude::*;
use crate::date::iso_date;
use crate::ids::{uuid_text, uuid_to_string};
use crate::model::{full_description, Transaction};
use crate::money::decimal_text;
use crate::text::str_eq;

verus! {

/// Options of the Treeline sink.
#[derive(Clone, Debug)]
pub struct SinkTreelineOptions {
    /// The Treeline account whose transactions and balances are replaced
    /// by the written transactions.
    pub account_name: String,
}

impl SinkTreelineOptions {
    pub fn new(account_name: String) -> (r: Self)
        ensures
            r.account_name == account_name,
    {
        SinkTreelineOptions { account_name }
    }
}

/// The id of the first account, of the `(name, id)` pairs, called
/// `account_name`.
pub fn find_treeline_account(accounts: &[(String, u128)], account_name: &str) -> (r: Option<u128>)
    ensures
        match r {
            Some(id) => exists|i: int|
                {
                    &&& 0 <= i < accounts@.len()
                    &&& (#[trigger] accounts@[i]).0@ == account_name@
                    &&& accounts@[i].1 == id
                    &&& forall|j: int| 0 <= j < i ==> (#[trigger] accounts@[j]).0@ != account_name@
                },
            None => forall|i: int|
                0 <= i < accounts@.len() ==> (#[trigger] accounts@[i]).0@ != account_name@,
        },
{
    let mut i: usize = 0;
    while i < accounts.len()
        invariant
            i <= accounts@.len(),
            forall|j: int| 0 <= j < i ==> (#[trigger] accounts@[j]).0@ != account_name@,
        decreases accounts@.len() - i,
    {
        if str_eq(accounts[i].0.as_str(), account_name) {
            assert(accounts@[i as int].0@ == account_name@);
            return Some(accounts[i].1);
        }
        i = i + 1;
    }
    None
}

/// The values of the `sys_transactions` row of `transaction` in the
/// account `account_id`: the transaction's UUID, the account's UUID, the
/// amount as a decimal, the full description, and the date twice, as the
/// transaction date and the posted date.
pub fn treeline_row(transaction: &Transaction, account_id: u128) -> (row: Vec<String>)
    ensures
        row@.len() == 6,
        row@[0]@ == uuid_text(transaction.id),
        row@[1]@ == uuid_text(account_id),
        row@[2]@ == decimal_text(transaction.amount.spec_amount()),
        row@[3]@ == full_description(transaction.description@, transaction.counterparty@),
        row@[4]@ == iso_date(
            transaction.date.spec_year(),
            transaction.date.spec_month(),
            transaction.date.spec_day(),
        ),
        row@[5]@ == row@[4]@,
{
    let date = transaction.date.to_iso_string();
    let mut row: Vec<String> = Vec::new();
    row.push(uuid_to_string(transaction.id));
    row.push(uuid_to_string(account_id));
    row.push(transaction.amount.amount().to_decimal_string());
    row.push(transaction.get_full_description());
    row.push(date.clone());
    row.push(date);
    row
}

} // verus!
