//! Payloads of the Actual HTTP API.
use vstd::prelude::*;

verus! {

/// Transaction payload for `POST
/// /budgets/{budgetSyncId}/accounts/{accountId}/transactions`.
#[derive(Debug)]
pub struct TransactionDto {
    pub account: String,
    pub date: String,
    pub amount: Option<i64>,
    pub payee: Option<String>,
    pub payee_name: Option<String>,
    pub imported_payee: Option<String>,
    pub category: Option<String>,
    pub notes: Option<String>,
    pub imported_id: Option<String>,
    pub transfer_id: Option<String>,
    pub cleared: Option<bool>,
    pub subtransactions: Option<Vec<TransactionDto>>,
}

/// Request body for creating a single transaction.
#[derive(Debug)]
pub struct CreateTransactionRequest {
    pub learn_categories: Option<bool>,
    pub run_transfers: Option<bool>,
    pub transaction: TransactionDto,
}

/// Request body for creating multiple transactions in a single call.
#[derive(Debug)]
pub struct CreateTransactionsBatchRequest {
    pub learn_categories: Option<bool>,
    pub run_transfers: Option<bool>,
    pub transactions: Vec<TransactionDto>,
}

/// Request body for importing transactions.
#[derive(Debug)]
pub struct ImportTransactionsRequest {
    pub transactions: Vec<TransactionDto>,
}

/// Request body for deleting a batch of transactions.
#[derive(Debug, Clone, PartialEq)]
pub struct DeleteTransactionsBatchRequest {
    pub transaction_ids: Vec<String>,
}

/// Response payload returned by import transactions endpoint.
#[derive(Debug, Clone, PartialEq)]
pub struct ImportTransactionsResult {
    pub added: Vec<String>,
    pub updated: Vec<String>,
}

/// Wrapper response for import transactions endpoint: newer servers nest
/// the ids under `data`, older ones put them at the top level.
#[derive(Debug, Clone, PartialEq)]
pub struct ImportTransactionsResponse {
    pub data: Option<ImportTransactionsResult>,
    pub added: Vec<String>,
    pub updated: Vec<String>,
}

impl ImportTransactionsResponse {
    /// The ids under `data` when present, otherwise those at the top level.
    pub fn into_result(self) -> (r: ImportTransactionsResult)
        ensures
            match self.data {
                Some(d) => r == d,
                None => r.added == self.added && r.updated == self.updated,
            },
    {
        if let Some(data) = self.data {
            return data;
        }
        ImportTransactionsResult { added: self.added, updated: self.updated }
    }
}

/// Generic response envelope used by create/delete transaction endpoints.
#[derive(Debug, Clone, PartialEq)]
pub struct GeneralResponseMessage {
    pub message: String,
}

} // verus!
