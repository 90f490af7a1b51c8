//! Transactions as banks report them and as the pipeline carries them.
use vstd::prelude::*;
use crate::date::Date;
pub use crate::tags::TagMap;
use crate::money::Money;
use crate::text::{join, join_non_empty, kept_parts, trim, views_of};

verus! {

/// A string that holds at least one character that is not whitespace.
#[derive(Debug, PartialEq, Eq, Hash)]
pub struct NonEmptyString(String);

impl View for NonEmptyString {
    type V = Seq<char>;

    closed spec fn view(&self) -> Seq<char> {
        self.0@
    }
}

impl NonEmptyString {
    #[verifier::type_invariant]
    closed spec fn inv(self) -> bool {
        trim(self.0@).len() > 0
    }

    /// `s`, unless it is empty or whitespace only.
    pub fn new(s: String) -> (r: Option<Self>)
        ensures
            r is Some <==> trim(s@).len() > 0,
            r matches Some(n) ==> n@ == s@,
    {
        let t = crate::text::trimmed(s.as_str());
        if t.unicode_len() == 0 {
            None
        } else {
            Some(NonEmptyString(s))
        }
    }

    /// `s`, unless it is empty or whitespace only.
    pub fn new_str(s: &str) -> (r: Option<Self>)
        ensures
            r is Some <==> trim(s@).len() > 0,
            r matches Some(n) ==> n@ == s@,
    {
        NonEmptyString::new(s.to_string())
    }

    pub fn as_str(&self) -> (r: &str)
        ensures
            r@ == self@,
            trim(r@).len() > 0,
    {
        proof {
            use_type_invariant(self);
        }
        self.0.as_str()
    }

    pub fn into_string(self) -> (r: String)
        ensures
            r@ == self@,
    {
        self.0
    }
}

impl Clone for NonEmptyString {
    fn clone(&self) -> (r: NonEmptyString)
        ensures
            r@ == self@,
    {
        proof {
            use_type_invariant(self);
        }
        NonEmptyString(self.0.clone())
    }
}

/// A transaction as a bank export reports it.
#[derive(Clone, Debug, PartialEq)]
pub struct BankTransaction {
    pub date: Date,
    pub description: String,
    pub counterparty: String,
    pub amount: Money,
    pub other_side_account_number: Option<NonEmptyString>,
}

/// A transaction on its way from sources through transformers to sinks.
pub struct Transaction {
    /// The transaction's UUID, as a 128-bit number.
    pub id: u128,
    pub date: Date,
    pub description: String,
    pub counterparty: String,
    pub amount: Money,
    pub other_side_account_number: Option<NonEmptyString>,
    pub tags: TagMap,
}

/// The description and the counterparty joined with ` | `, leaving out
/// either one that is blank.
pub open spec fn full_description(description: Seq<char>, counterparty: Seq<char>) -> Seq<char> {
    join(kept_parts(seq![description, counterparty]), seq![' ', '|', ' '])
}

impl Transaction {
    /// Not all banks split description and counterparty, so transformers
    /// match against both joined into one string.
    pub fn get_full_description(&self) -> (r: String)
        ensures
            r@ == full_description(self.description@, self.counterparty@),
    {
        let parts: Vec<&str> = vec![self.description.as_str(), self.counterparty.as_str()];
        let sep = " | ";
        proof {
            reveal_strlit(" | ");
        }
        assert(sep@ == seq![' ', '|', ' ']);
        let r = join_non_empty(parts.as_slice(), sep);
        assert(views_of(parts@) == seq![self.description@, self.counterparty@]);
        r
    }
}

/// The identifier of an account, a UUID as a 128-bit number.
#[derive(Clone, Copy, Debug, PartialEq, Eq, Hash)]
pub struct AccountId(pub u128);

impl AccountId {
    pub fn new(uuid: u128) -> (r: Self)
        ensures
            r.0 == uuid,
    {
        AccountId(uuid)
    }

    pub fn value(&self) -> (r: u128)
        ensures
            r == self.0,
    {
        self.0
    }
}

/// A month of a year.
#[derive(Clone, Debug, PartialEq, Eq, Hash)]
pub struct MonthYear {
    month: u32,
    year: i32,
}

impl MonthYear {
    pub closed spec fn spec_month(self) -> int {
        self.month as int
    }

    pub closed spec fn spec_year(self) -> int {
        self.year as int
    }

    /// The `month` (1 to 12) of `year`.
    pub fn new(month: u32, year: i32) -> (r: Self)
        requires
            1 <= month <= 12,
        ensures
            r.spec_month() == month,
            r.spec_year() == year,
    {
        MonthYear { month, year }
    }

    /// The month that `date` falls in.
    pub fn from_date(date: Date) -> (r: Self)
        ensures
            r.spec_month() == date.spec_month(),
            r.spec_year() == date.spec_year(),
    {
        MonthYear { month: date.month(), year: date.year() }
    }
}

} // verus!
