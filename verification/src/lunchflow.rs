//! Lunch Flow: an account's transactions fetched as JSON, kept in files
//! named by the time of download, and read back as bank transactions.
use vstd::prelude::*;
use crate::date::{parsed_iso_date, Date};
use crate::lunchmoney::categories::opt_view;
use crate::model::BankTransaction;
use crate::money::{is_iso_code, Amount, Currency, Money};
use crate::text::{append_str, decimal, signed_decimal, u64_to_decimal, i64_to_decimal};

verus! {

/// The id of an account in Lunch Flow.
#[derive(Copy, Clone, Debug, PartialEq, Eq)]
pub struct LunchFlowAccountId(i64);

impl LunchFlowAccountId {
    pub closed spec fn spec_value(self) -> i64 {
        self.0
    }

    pub fn new(id: i64) -> (r: Self)
        ensures
            r.spec_value() == id,
    {
        LunchFlowAccountId(id)
    }

    pub fn value(&self) -> (r: i64)
        ensures
            r == self.spec_value(),
    {
        self.0
    }
}

/// The key of Lunch Flow's REST API.
#[derive(Clone, Debug)]
pub struct LunchFlowApiKey(String);

impl View for LunchFlowApiKey {
    type V = Seq<char>;

    closed spec fn view(&self) -> Seq<char> {
        self.0@
    }
}

impl LunchFlowApiKey {
    pub fn new(key: String) -> (r: Self)
        ensures
            r@ == key@,
    {
        LunchFlowApiKey(key)
    }

    pub fn value(&self) -> (r: &str)
        ensures
            r@ == self@,
    {
        self.0.as_str()
    }
}

/// The address of an account's transactions: `{url}/accounts/{id}/transactions`.
pub fn transactions_url(url: &str, account_id: LunchFlowAccountId) -> (r: String)
    ensures
        r@ == url@ + "/accounts/"@ + signed_decimal(account_id.spec_value() as int)
            + "/transactions"@,
{
    let mut r = url.to_string();
    append_str(&mut r, "/accounts/");
    let id = i64_to_decimal(account_id.value());
    append_str(&mut r, id.as_str());
    append_str(&mut r, "/transactions");
    r
}

/// The name of the file a download made at `seconds` after the epoch is
/// kept in: `{seconds}_lunchflow_transactions.json`.
pub fn downloaded_file_name(seconds: u64) -> (r: String)
    ensures
        r@ == decimal(seconds as nat) + "_lunchflow_transactions.json"@,
{
    let mut r = u64_to_decimal(seconds);
    append_str(&mut r, "_lunchflow_transactions.json");
    r
}

/// The text of an optional string, empty when there is none.
pub open spec fn or_empty(o: Option<Seq<char>>) -> Seq<char> {
    match o {
        Some(s) => s,
        None => Seq::empty(),
    }
}

/// Why a Lunch Flow transaction could not be read.
#[derive(Clone, Debug, PartialEq)]
pub enum LunchFlowError {
    /// No ISO currency has this code.
    UnknownCurrency(String),
    /// The date is not `YYYY-MM-DD`.
    InvalidDate(String),
}

/// The bank transaction of a Lunch Flow transaction: `merchant |
/// description` as description, the amount in the currency with the given
/// code, and the date; the currency is looked up first.
pub fn lunchflow_bank_transaction(
    currency: &str,
    amount: Amount,
    merchant: Option<String>,
    description: Option<String>,
    date: &str,
) -> (r: Result<BankTransaction, LunchFlowError>)
    requires
        amount.wf(),
    ensures
        !is_iso_code(currency@) ==> (r matches Err(LunchFlowError::UnknownCurrency(c)) && c@
            == currency@),
        is_iso_code(currency@) && parsed_iso_date(date@) is None ==> (r matches Err(
            LunchFlowError::InvalidDate(d),
        ) && d@ == date@),
        r matches Ok(tx) ==> {
            &&& is_iso_code(currency@)
            &&& parsed_iso_date(date@) == Some(
                (tx.date.spec_year(), tx.date.spec_month(), tx.date.spec_day()),
            )
            &&& tx.description@ == or_empty(opt_view(merchant)) + " | "@ + or_empty(
                opt_view(description),
            )
            &&& tx.counterparty@ == Seq::<char>::empty()
            &&& tx.amount.spec_amount() == amount
            &&& tx.amount.spec_currency().spec_code() == currency@
            &&& tx.other_side_account_number is None
        },
        (is_iso_code(currency@) && parsed_iso_date(date@) is Some) ==> r is Ok,
{
    let found = match Currency::find(currency) {
        Some(c) => c,
        None => {
            return Err(LunchFlowError::UnknownCurrency(currency.to_string()));
        },
    };
    let mut text = match &merchant {
        Some(m) => m.clone(),
        None => String::new(),
    };
    append_str(&mut text, " | ");
    match &description {
        Some(d) => append_str(&mut text, d.as_str()),
        None => {},
    }
    assert(text@ =~= or_empty(opt_view(merchant)) + " | "@ + or_empty(
        opt_view(description),
    ));
    let day = match Date::parse_iso(date) {
        Some(d) => d,
        None => {
            return Err(LunchFlowError::InvalidDate(date.to_string()));
        },
    };
    Ok(
        BankTransaction {
            date: day,
            description: text,
            counterparty: String::new(),
            amount: Money::from_decimal(amount, found),
            other_side_account_number: None,
        },
    )
}

} // verus!
