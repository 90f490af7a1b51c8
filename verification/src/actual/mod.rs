//! The Actual budgeting HTTP API: credentials, client settings, payloads
//! and the addresses and headers its requests carry.
pub mod api;
pub mod dto;

use vstd::prelude::*;

verus! {

/// API key used to authenticate against the Actual HTTP API (`x-api-key`
/// header).
#[derive(Debug, Clone)]
pub struct ApiKey(String);

impl View for ApiKey {
    type V = Seq<char>;

    closed spec fn view(&self) -> Seq<char> {
        self.0@
    }
}

impl ApiKey {
    pub fn new(key: String) -> (r: Self)
        ensures
            r@ == key@,
    {
        ApiKey(key)
    }

    pub fn value(&self) -> (r: &str)
        ensures
            r@ == self@,
    {
        self.0.as_str()
    }
}

/// Actual budget synchronization id used in path parameters.
#[derive(Debug, Clone)]
pub struct BudgetSyncId(String);

impl View for BudgetSyncId {
    type V = Seq<char>;

    closed spec fn view(&self) -> Seq<char> {
        self.0@
    }
}

impl BudgetSyncId {
    pub fn new(value: String) -> (r: Self)
        ensures
            r@ == value@,
    {
        BudgetSyncId(value)
    }

    pub fn value(&self) -> (r: &str)
        ensures
            r@ == self@,
    {
        self.0.as_str()
    }
}

/// Optional encryption password sent in the `budget-encryption-password`
/// header.
#[derive(Debug, Clone)]
pub struct BudgetEncryptionPassword(String);

impl View for BudgetEncryptionPassword {
    type V = Seq<char>;

    closed spec fn view(&self) -> Seq<char> {
        self.0@
    }
}

impl BudgetEncryptionPassword {
    pub fn new(value: String) -> (r: Self)
        ensures
            r@ == value@,
    {
        BudgetEncryptionPassword(value)
    }

    pub fn value(&self) -> (r: &str)
        ensures
            r@ == self@,
    {
        self.0.as_str()
    }
}

} // verus!
