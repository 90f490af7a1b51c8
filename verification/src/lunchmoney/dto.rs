//! Payloads of the Lunch Money v2 API. Dates are held in ISO form
//! (`YYYY-MM-DD`) and timestamps in RFC 3339 form.
use vstd::prelude::*;
use crate::date::Date;
use crate::money::Amount;

verus! {

/// Minimal transaction as returned by `GET /transactions`.
#[derive(Debug, Clone, PartialEq)]
pub struct TransactionDto {
    pub id: i64,
    pub date: Date,
    pub amount: Amount,
    pub currency: String,
    pub payee: String,
    pub notes: Option<String>,
}

/// Child category nested inside a category group.
#[derive(Debug, Clone, PartialEq)]
pub struct ChildCategoryDto {
    pub id: i64,
    pub name: String,
    pub description: Option<String>,
    pub is_income: bool,
    pub exclude_from_budget: bool,
    pub exclude_from_totals: bool,
    pub updated_at: String,
    pub created_at: String,
    pub is_group: bool,
    pub group_id: Option<i64>,
    pub archived: bool,
    pub archived_at: Option<String>,
    pub order: Option<i64>,
    pub collapsed: bool,
}

/// Top-level category (group or standalone).
#[derive(Debug, Clone, PartialEq)]
pub struct CategoryDto {
    pub id: i64,
    pub name: String,
    pub description: Option<String>,
    pub is_income: bool,
    pub exclude_from_budget: bool,
    pub exclude_from_totals: bool,
    pub updated_at: String,
    pub created_at: String,
    pub is_group: bool,
    pub group_id: Option<i64>,
    pub children: Vec<ChildCategoryDto>,
    pub archived: bool,
    pub archived_at: Option<String>,
    pub order: Option<i64>,
    pub collapsed: bool,
}

/// Manual account as returned by `GET /manual_accounts`.
#[derive(Debug, Clone, PartialEq)]
pub struct ManualAccountDto {
    pub id: i64,
    pub name: String,
}

/// Optional query parameters for `GET /transactions`.
#[derive(Debug, Clone, Default, PartialEq)]
pub struct GetTransactionsParams {
    pub start_date: Option<Date>,
    pub end_date: Option<Date>,
    /// Filter transactions by manual account id.
    pub manual_account_id: Option<i64>,
    /// Maximum number of transactions to return (1–2000, default 1000).
    pub limit: Option<u32>,
    /// Offset into the result set, for pagination.
    pub offset: Option<u32>,
}

/// A single transaction entry for `POST /transactions` (bulk insert).
#[derive(Debug, PartialEq)]
pub struct InsertTransactionDto {
    pub date: Date,
    pub amount: Amount,
    pub currency: Option<String>,
    pub payee: Option<String>,
    pub category_id: Option<i64>,
    pub notes: Option<String>,
    pub manual_account_id: Option<i64>,
    pub external_id: Option<String>,
}

/// Request body for `POST /transactions` (bulk insert, 1-500 transactions).
#[derive(Debug, Clone, PartialEq)]
pub struct PostTransactionsRequest {
    pub transactions: Vec<InsertTransactionDto>,
}

/// Response envelope for `POST /transactions`.
#[derive(Debug, Clone, PartialEq)]
pub struct PostTransactionsResponse {
    pub transactions: Vec<TransactionDto>,
}

/// A single transaction update entry for `PUT /transactions`; only the
/// fields that are `Some` are sent.
#[derive(Debug, Clone, PartialEq)]
pub struct UpdateTransactionDto {
    pub id: i64,
    pub date: Option<Date>,
    pub amount: Option<Amount>,
    pub currency: Option<String>,
    pub payee: Option<String>,
    pub notes: Option<String>,
}

/// Request body for `PUT /transactions` (bulk update, 1–500 transactions).
#[derive(Debug, Clone, PartialEq)]
pub struct PutTransactionsRequest {
    pub transactions: Vec<UpdateTransactionDto>,
}

/// Response envelope for `PUT /transactions`.
#[derive(Debug, Clone, PartialEq)]
pub struct PutTransactionsResponse {
    pub transactions: Vec<TransactionDto>,
}

/// Request body for `DELETE /transactions` (bulk delete).
#[derive(Debug, Clone, PartialEq)]
pub struct DeleteTransactionsRequest {
    pub ids: Vec<i64>,
}

/// Request body for `POST /categories`.
#[derive(Debug, Clone, PartialEq)]
pub struct CreateCategoryRequest {
    pub name: String,
    pub description: Option<String>,
    pub is_income: Option<bool>,
    pub exclude_from_budget: Option<bool>,
    pub exclude_from_totals: Option<bool>,
    pub is_group: Option<bool>,
    pub group_id: Option<i64>,
    pub order: Option<i64>,
}

fn clone_text(o: &Option<String>) -> (r: Option<String>)
    ensures
        r == *o,
{
    match o {
        Some(t) => Some(t.clone()),
        None => None,
    }
}

impl Clone for InsertTransactionDto {
    fn clone(&self) -> (r: Self)
        ensures
            r == *self,
    {
        InsertTransactionDto {
            date: self.date,
            amount: self.amount,
            currency: clone_text(&self.currency),
            payee: clone_text(&self.payee),
            category_id: self.category_id,
            notes: clone_text(&self.notes),
            manual_account_id: self.manual_account_id,
            external_id: clone_text(&self.external_id),
        }
    }
}

} // verus!
