//! Settings of the Actual client, and the addresses and headers of its
//! requests.
use vstd::prelude::*;
use crate::actual::{ApiKey, BudgetEncryptionPassword, BudgetSyncId};
use crate::resilience::{duration_from_secs, nanos_of, ExponentialBackoff};
use crate::text::append_str;

verus! {

/// How many times a request that got a server error is sent again.
pub const ERROR_RETRIES: u32 = 3;

/// The backoff for server errors: three retries, waiting one second at
/// first and at most thirty.
pub fn default_error_backoff() -> (b: ExponentialBackoff)
    ensures
        b.max_retries == ERROR_RETRIES,
        nanos_of(b.initial_wait) == 1_000_000_000,
        nanos_of(b.max_wait) == 30_000_000_000,
{
    ExponentialBackoff::new(ERROR_RETRIES, duration_from_secs(1), duration_from_secs(30))
}

/// Configuration for the Actual client.
#[derive(Debug, Clone)]
pub struct ActualClientConfig {
    pub base_url: String,
    pub api_key: ApiKey,
    pub budget_sync_id: BudgetSyncId,
    pub budget_encryption_password: Option<BudgetEncryptionPassword>,
}

impl ActualClientConfig {
    /// A configuration without an encryption password.
    pub fn new(base_url: String, api_key: ApiKey, budget_sync_id: BudgetSyncId) -> (c: Self)
        ensures
            c.base_url == base_url,
            c.api_key == api_key,
            c.budget_sync_id == budget_sync_id,
            c.budget_encryption_password is None,
    {
        ActualClientConfig { base_url, api_key, budget_sync_id, budget_encryption_password: None }
    }

    /// The same configuration, sending `budget_encryption_password`.
    pub fn with_budget_encryption_password(
        self,
        budget_encryption_password: BudgetEncryptionPassword,
    ) -> (c: Self)
        ensures
            c.base_url == self.base_url,
            c.api_key == self.api_key,
            c.budget_sync_id == self.budget_sync_id,
            c.budget_encryption_password == Some(budget_encryption_password),
    {
        let mut c = self;
        c.budget_encryption_password = Some(budget_encryption_password);
        c
    }

    /// `{base}/budgets/{budget}` where the budget's paths start.
    pub open spec fn budget_url(self) -> Seq<char> {
        self.base_url@ + "/budgets/"@ + self.budget_sync_id@
    }

    /// `{base}/budgets/{budget}/accounts/{account}/transactions` followed by
    /// `suffix` (empty, `/batch` or `/import`).
    pub fn account_transactions_url(&self, account_id: &str, suffix: &str) -> (url: String)
        ensures
            url@ == self.budget_url() + "/accounts/"@ + account_id@ + "/transactions"@ + suffix@,
    {
        let mut url = self.base_url.clone();
        append_str(&mut url, "/budgets/");
        append_str(&mut url, self.budget_sync_id.value());
        append_str(&mut url, "/accounts/");
        append_str(&mut url, account_id);
        append_str(&mut url, "/transactions");
        append_str(&mut url, suffix);
        url
    }

    /// `{base}/budgets/{budget}/transactions/{tail}` (a transaction id, or
    /// `batch`).
    pub fn budget_transactions_url(&self, tail: &str) -> (url: String)
        ensures
            url@ == self.budget_url() + "/transactions/"@ + tail@,
    {
        let mut url = self.base_url.clone();
        append_str(&mut url, "/budgets/");
        append_str(&mut url, self.budget_sync_id.value());
        append_str(&mut url, "/transactions/");
        append_str(&mut url, tail);
        url
    }

    /// The headers every request carries: the API key, and the encryption
    /// password when there is one.
    pub fn common_headers(&self) -> (h: Vec<(String, String)>)
        ensures
            h@.len() == if self.budget_encryption_password is Some { 2int } else { 1int },
            h@[0].0@ == "x-api-key"@,
            h@[0].1@ == self.api_key@,
            self.budget_encryption_password matches Some(p) ==> h@[1].0@
                == "budget-encryption-password"@ && h@[1].1@ == p@,
    {
        let mut h: Vec<(String, String)> = Vec::new();
        h.push(("x-api-key".to_string(), self.api_key.value().to_string()));
        if let Some(p) = &self.budget_encryption_password {
            h.push(("budget-encryption-password".to_string(), p.value().to_string()));
        }
        h
    }
}

} // verus!
