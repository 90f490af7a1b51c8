//! The Lunch Money v2 endpoints the services use, as a trait that the HTTP
//! client (or a stand-in) implements, and the paging of `GET
//! /transactions`.
use vstd::prelude::*;
use crate::lunchmoney::dto::{
    CategoryDto, CreateCategoryRequest, DeleteTransactionsRequest, GetTransactionsParams,
    ManualAccountDto, PostTransactionsRequest, PostTransactionsResponse, PutTransactionsRequest,
    PutTransactionsResponse, TransactionDto,
};
use crate::resilience::{duration_from_secs, nanos_of, ExponentialBackoff};
use crate::text::{append_str, i64_to_decimal, signed_decimal};

verus! {

/// How many times a rate-limited request is sent again.
pub const RATE_LIMIT_RETRIES: u32 = 3;

/// How many times a request that got a server error is sent again.
pub const ERROR_RETRIES: u32 = 3;

/// The page size asked for when the caller sets none.
pub const DEFAULT_PAGE_LIMIT: u32 = 1000;

/// The backoff for server errors: three retries, waiting one second at
/// first and at most thirty.
pub fn default_error_backoff() -> (b: ExponentialBackoff)
    ensures
        b.max_retries == ERROR_RETRIES,
        nanos_of(b.initial_wait) == 1_000_000_000,
        nanos_of(b.max_wait) == 30_000_000_000,
{
    ExponentialBackoff::new(ERROR_RETRIES, duration_from_secs(1), duration_from_secs(30))
}

/// A failed call, with what went wrong.
#[derive(Clone, Debug, PartialEq)]
pub struct ApiError {
    pub message: String,
}

/// A call of a [`LunchMoneyApi`] method: what it was handed and what it
/// answered.
pub enum ApiCall {
    GetAllManualAccounts(Result<Vec<ManualAccountDto>, ApiError>),
    GetAllCategories(Result<Vec<CategoryDto>, ApiError>),
    CreateCategory(CreateCategoryRequest, Result<CategoryDto, ApiError>),
    GetAllTransactions(GetTransactionsParams, Result<Vec<TransactionDto>, ApiError>),
    PutTransactions(PutTransactionsRequest, Result<PutTransactionsResponse, ApiError>),
    PostTransactions(PostTransactionsRequest, Result<PostTransactionsResponse, ApiError>),
    DeleteTransactions(DeleteTransactionsRequest, Result<(), ApiError>),
    DeleteCategory(i64, Result<(), ApiError>),
}

/// The runs of calls one after the other.
pub open spec fn concat_runs(parts: Seq<Seq<ApiCall>>) -> Seq<ApiCall>
    decreases parts.len(),
{
    if parts.len() == 0 {
        Seq::empty()
    } else {
        concat_runs(parts.drop_last()) + parts.last()
    }
}

/// Appending a run appends its calls.
pub proof fn lemma_concat_runs_push(parts: Seq<Seq<ApiCall>>, run: Seq<ApiCall>)
    ensures
        concat_runs(parts.push(run)) == concat_runs(parts) + run,
{
    assert(parts.push(run).drop_last() =~= parts);
}

/// The Lunch Money v2 endpoints the project uses.
///
/// What a call answers depends on the service, so nothing is assumed of
/// it. Every call is appended, with its arguments and its answer, to the
/// client's history of calls (`calls`), so that callers state exactly
/// which calls they make, in which order, and what they do with each
/// answer.
pub trait LunchMoneyApi {
    /// The calls made through this client so far, oldest first. Only the
    /// methods' contracts give it meaning: each call appends itself. The
    /// body is a default for implementations written in plain Rust, which
    /// cannot define a spec function; the proofs in this crate only see
    /// clients as `dyn LunchMoneyApi`, whose history is unknown to them
    /// except through those contracts.
    closed spec fn calls(&self) -> Seq<ApiCall> {
        Seq::empty()
    }

    /// Fetch all manual accounts (`GET /manual_accounts`).
    fn get_all_manual_accounts(&mut self) -> (r: Result<Vec<ManualAccountDto>, ApiError>)
        ensures
            final(self).calls() == old(self).calls().push(ApiCall::GetAllManualAccounts(r)),
    ;

    /// Fetch all categories in nested format (`GET /categories?format=nested`).
    fn get_all_categories(&mut self) -> (r: Result<Vec<CategoryDto>, ApiError>)
        ensures
            final(self).calls() == old(self).calls().push(ApiCall::GetAllCategories(r)),
    ;

    /// Create a category or category group (`POST /categories`).
    fn create_category(&mut self, request: &CreateCategoryRequest) -> (r: Result<
        CategoryDto,
        ApiError,
    >)
        ensures
            final(self).calls() == old(self).calls().push(ApiCall::CreateCategory(*request, r)),
    ;

    /// Fetch every matching transaction, following the pages until the last.
    fn get_all_transactions(&mut self, params: &GetTransactionsParams) -> (r: Result<
        Vec<TransactionDto>,
        ApiError,
    >)
        ensures
            final(self).calls() == old(self).calls().push(ApiCall::GetAllTransactions(*params, r)),
    ;

    /// Update up to 500 transactions in a single call (`PUT /transactions`).
    fn put_transactions(&mut self, request: &PutTransactionsRequest) -> (r: Result<
        PutTransactionsResponse,
        ApiError,
    >)
        ensures
            final(self).calls() == old(self).calls().push(ApiCall::PutTransactions(*request, r)),
    ;

    /// Insert up to 500 transactions in a single call (`POST /transactions`).
    fn post_transactions(&mut self, request: &PostTransactionsRequest) -> (r: Result<
        PostTransactionsResponse,
        ApiError,
    >)
        ensures
            final(self).calls() == old(self).calls().push(ApiCall::PostTransactions(*request, r)),
    ;

    /// Delete multiple transactions in one call (`DELETE /transactions`).
    fn delete_transactions(&mut self, request: &DeleteTransactionsRequest) -> (r: Result<
        (),
        ApiError,
    >)
        ensures
            final(self).calls() == old(self).calls().push(ApiCall::DeleteTransactions(*request, r)),
    ;

    /// Force-delete a category or category group (`DELETE
    /// /categories/{id}?force=true`).
    fn delete_category(&mut self, id: i64) -> (r: Result<(), ApiError>)
        ensures
            final(self).calls() == old(self).calls().push(ApiCall::DeleteCategory(id, r)),
    ;
}

/// The query of the page at `offset` of size `limit`, with the filters of
/// `params`.
pub fn page_params(params: &GetTransactionsParams, limit: u32, offset: u32) -> (p:
    GetTransactionsParams)
    ensures
        p.start_date == params.start_date,
        p.end_date == params.end_date,
        p.manual_account_id == params.manual_account_id,
        p.limit == Some(limit),
        p.offset == Some(offset),
{
    GetTransactionsParams {
        start_date: params.start_date,
        end_date: params.end_date,
        manual_account_id: params.manual_account_id,
        limit: Some(limit),
        offset: Some(offset),
    }
}

/// The page size and first offset of a listing: those of `params`, or
/// 1000 and 0.
pub fn first_page(params: &GetTransactionsParams) -> (r: (u32, u32))
    ensures
        r.0 == match params.limit {
            Some(l) => l,
            None => DEFAULT_PAGE_LIMIT,
        },
        r.1 == match params.offset {
            Some(o) => o,
            None => 0,
        },
{
    let limit = match params.limit {
        Some(l) => l,
        None => DEFAULT_PAGE_LIMIT,
    };
    let offset = match params.offset {
        Some(o) => o,
        None => 0,
    };
    (limit, offset)
}

/// The offset of the page after the one at `offset`, when the server said
/// there are more.
pub fn next_page_offset(offset: u32, limit: u32, has_more: bool) -> (r: Option<u32>)
    requires
        has_more ==> offset + limit <= u32::MAX,
    ensures
        r == if has_more {
            Some((offset + limit) as u32)
        } else {
            None::<u32>
        },
{
    if has_more {
        Some(offset + limit)
    } else {
        None
    }
}

/// `{base}{path}`, the address of an endpoint.
pub fn endpoint_url(base_url: &str, path: &str) -> (url: String)
    ensures
        url@ == base_url@ + path@,
{
    let mut url = base_url.to_string();
    append_str(&mut url, path);
    url
}

/// `Bearer {key}`, the value of the `Authorization` header.
pub fn bearer(key: &str) -> (value: String)
    ensures
        value@ == "Bearer "@ + key@,
{
    let mut value = "Bearer ".to_string();
    append_str(&mut value, key);
    value
}

/// The most transactions one insert or delete request carries.
pub const MAX_TRANSACTIONS_PER_REQUEST: usize = 500;

/// How many requests of at most 500 items `len` items take.
pub open spec fn batch_count(len: int) -> int {
    (len + 499) / 500
}

/// Items `500 * k` up to (not including) `500 * (k + 1)` of `s`: the
/// `k`-th request's share.
pub open spec fn batch_of<A>(s: Seq<A>, k: int) -> Seq<A> {
    s.subrange(500 * k, if 500 * (k + 1) <= s.len() { 500 * (k + 1) } else { s.len() as int })
}

/// The requests carry every item once, in order: item `i` is item `i % 500`
/// of request `i / 500`, and no request is empty.
pub proof fn batches_hold_every_item<A>(s: Seq<A>)
    ensures
        forall|i: int|
            0 <= i < s.len() ==> 0 <= i / 500 < batch_count(s.len() as int) && #[trigger] batch_of(
                s,
                i / 500,
            )[i % 500] == s[i],
        forall|k: int| 0 <= k < batch_count(s.len() as int) ==> #[trigger] batch_of(s, k).len() > 0,
{
    assert forall|i: int| 0 <= i < s.len() implies 0 <= i / 500 < batch_count(s.len() as int)
        && #[trigger] batch_of(s, i / 500)[i % 500] == s[i] by {
        let k = i / 500;
        assert(500 * k + i % 500 == i);
        assert(500 * k <= i < 500 * (k + 1));
    }
}

/// Why a service call failed.
#[derive(Clone, Debug, PartialEq)]
pub enum LunchMoneyError {
    /// A call to the API failed; `context` says which.
    Api { context: String, cause: ApiError },
    /// Two categories share a name, so names cannot stand for ids.
    DuplicateCategoryName { name: String, existing_id: i64, id: i64 },
}

/// The sentence that says what went wrong in `e`.
pub open spec fn error_text(e: LunchMoneyError) -> Seq<char> {
    match e {
        LunchMoneyError::Api { context, cause } => context@ + ": "@ + cause.message@,
        LunchMoneyError::DuplicateCategoryName { name, existing_id, id } =>
            "duplicate Lunch Money category name '"@ + name@ + "' for ids "@ + signed_decimal(
            existing_id as int,
        ) + " and "@ + signed_decimal(id as int),
    }
}

impl LunchMoneyError {
    /// A sentence that says what went wrong.
    pub fn message(&self) -> (m: String)
        ensures
            m@ == error_text(*self),
    {
        match self {
            LunchMoneyError::Api { context, cause } => {
                let mut m = context.clone();
                append_str(&mut m, ": ");
                append_str(&mut m, cause.message.as_str());
                m
            },
            LunchMoneyError::DuplicateCategoryName { name, existing_id, id } => {
                let mut m = "duplicate Lunch Money category name '".to_string();
                append_str(&mut m, name.as_str());
                append_str(&mut m, "' for ids ");
                let a = i64_to_decimal(*existing_id);
                append_str(&mut m, a.as_str());
                append_str(&mut m, " and ");
                let b = i64_to_decimal(*id);
                append_str(&mut m, b.as_str());
                m
            },
        }
    }

    /// The failure of an API call, described by `context`.
    pub fn api(context: &str, cause: ApiError) -> (e: Self)
        ensures
            e matches LunchMoneyError::Api { context: c, cause: k } && c@ == context@ && k == cause,
    {
        LunchMoneyError::Api { context: context.to_string(), cause }
    }
}

} // verus!
