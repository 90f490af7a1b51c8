//! Deleting transactions from a Lunch Money account, 500 per request.
use vstd::prelude::*;
use crate::lunchmoney::api::{batch_count, batch_of, ApiCall, ApiError, LunchMoneyApi, LunchMoneyError};
use crate::lunchmoney::dto::{DeleteTransactionsRequest, TransactionDto};

verus! {

/// The ids of transactions, in order.
pub open spec fn ids_of(transactions: Seq<TransactionDto>) -> Seq<i64> {
    transactions.map_values(|t: TransactionDto| t.id)
}

/// The delete requests for `transactions`: their ids in order, 500 per
/// request, the last one holding the rest.
pub fn delete_requests(transactions: &[TransactionDto]) -> (r: Vec<DeleteTransactionsRequest>)
    ensures
        r@.len() == batch_count(transactions@.len() as int),
        forall|k: int|
            0 <= k < r@.len() ==> #[trigger] r@[k].ids@ == ids_of(batch_of(transactions@, k)),
{
    let n = transactions.len();
    let mut r: Vec<DeleteTransactionsRequest> = Vec::new();
    let mut start: usize = 0;
    while start < n
        invariant
            n == transactions@.len(),
            start == if 500 * r@.len() <= n {
                (500 * r@.len()) as int
            } else {
                n as int
            },
            start < n ==> start == 500 * r@.len(),
            start == n ==> r@.len() == batch_count(n as int),
            forall|k: int|
                0 <= k < r@.len() ==> #[trigger] r@[k].ids@ == ids_of(batch_of(transactions@, k)),
        decreases n - start,
    {
        let end: usize = if n - start > 500 {
            start + 500
        } else {
            n
        };
        let mut ids: Vec<i64> = Vec::new();
        let mut i: usize = start;
        while i < end
            invariant
                start <= i <= end <= n == transactions@.len(),
                ids@ == ids_of(transactions@.subrange(start as int, i as int)),
            decreases end - i,
        {
            ids.push(transactions[i].id);
            assert(transactions@.subrange(start as int, i + 1) =~= transactions@.subrange(
                start as int,
                i as int,
            ).push(transactions@[i as int]));
            i = i + 1;
        }
        let ghost k = r@.len() as int;
        assert(batch_of(transactions@, k) == transactions@.subrange(start as int, end as int));
        r.push(DeleteTransactionsRequest { ids });
        start = end;
    }
    r
}

/// Whether `c` is a delete request for exactly the ids `ids`.
pub open spec fn is_delete_of(c: ApiCall, ids: Seq<i64>) -> bool {
    c matches ApiCall::DeleteTransactions(request, _) && request.ids@ == ids
}

/// What a delete request was answered.
pub open spec fn delete_answer(c: ApiCall) -> Result<(), ApiError> {
    c->DeleteTransactions_1
}

/// Whether `made` are the calls of deleting `transactions` and `r` the
/// result: the requests of `delete_requests` are sent in order, each only
/// after the one before was answered `Ok`; the result is `Ok` once all
/// were (with no call when there are no transactions), and otherwise the
/// failure of the last request sent, in an `Api` error.
pub open spec fn deleted(
    transactions: Seq<TransactionDto>,
    made: Seq<ApiCall>,
    r: Result<(), LunchMoneyError>,
) -> bool {
    &&& made.len() <= batch_count(transactions.len() as int)
    &&& forall|k: int|
        0 <= k < made.len() ==> #[trigger] is_delete_of(made[k], ids_of(batch_of(transactions, k)))
    &&& forall|k: int| 0 <= k < made.len() - 1 ==> #[trigger] delete_answer(made[k]) is Ok
    &&& match r {
        Ok(()) => made.len() == batch_count(transactions.len() as int) && forall|k: int|
            0 <= k < made.len() ==> #[trigger] delete_answer(made[k]) is Ok,
        Err(e) => made.len() > 0 && exists|cause: ApiError|
            {
                &&& delete_answer(made.last()) == Err::<(), ApiError>(cause)
                &&& e matches LunchMoneyError::Api { context, cause: c }
                &&& context@ == "failed to delete existing transactions"@
                &&& c == cause
            },
    }
}

/// When Lunch Money accepts every delete request, a deletion succeeds and
/// makes exactly one request per batch of `delete_requests`, in order.
pub proof fn deletion_accepted_deletes_each_batch_once(
    transactions: Seq<TransactionDto>,
    made: Seq<ApiCall>,
    r: Result<(), LunchMoneyError>,
)
    requires
        deleted(transactions, made, r),
        forall|i: int| 0 <= i < made.len() ==> #[trigger] delete_answer(made[i]) is Ok,
    ensures
        r is Ok,
        made.len() == batch_count(transactions.len() as int),
        forall|k: int|
            0 <= k < made.len() ==> #[trigger] is_delete_of(made[k], ids_of(batch_of(transactions, k))),
{
    if r is Err {
        assert(delete_answer(made[made.len() - 1]) is Ok);
    }
}

/// A failed delete request is the last call: nothing is sent after it.
pub proof fn deletion_stops_at_first_failure(
    transactions: Seq<TransactionDto>,
    made: Seq<ApiCall>,
    r: Result<(), LunchMoneyError>,
    k: int,
)
    requires
        deleted(transactions, made, r),
        0 <= k < made.len(),
        delete_answer(made[k]) is Err,
    ensures
        k == made.len() - 1,
        r is Err,
{
}

/// Deletes transactions from an account.
pub trait LunchMoneyTransactionsDeletionService {
    /// Whether `made` and `r` are the calls and the result of
    /// `delete_transactions` for the account `account_name` and these
    /// transactions. The trait admits every run; implementations state
    /// theirs in their own contracts.
    closed spec fn deletion_answer(
        &self,
        account_name: Seq<char>,
        transactions: Seq<TransactionDto>,
        made: Seq<ApiCall>,
        r: Result<(), LunchMoneyError>,
    ) -> bool {
        true
    }

    fn delete_transactions(
        &self,
        api_client: &mut Box<dyn LunchMoneyApi>,
        account_name: &str,
        transactions: &[TransactionDto],
    ) -> (r: Result<(), LunchMoneyError>)
        ensures
            exists|made: Seq<ApiCall>|
                final(api_client).calls() == old(api_client).calls() + made
                    && #[trigger] self.deletion_answer(account_name@, transactions@, made, r),
    ;
}

/// Deletes transactions with the requests of `delete_requests`, stopping
/// at the first that fails.
pub struct DefaultLunchMoneyTransactionsDeletionService;

impl LunchMoneyTransactionsDeletionService for DefaultLunchMoneyTransactionsDeletionService {
    /// Sends nothing when there is nothing to delete; otherwise sends the
    /// requests of `delete_requests` in order, and fails with the first
    /// failure.
    fn delete_transactions(
        &self,
        api_client: &mut Box<dyn LunchMoneyApi>,
        account_name: &str,
        transactions: &[TransactionDto],
    ) -> (r: Result<(), LunchMoneyError>)
        ensures
            exists|made: Seq<ApiCall>|
                final(api_client).calls() == old(api_client).calls() + made
                    && #[trigger] deleted(transactions@, made, r),
    {
        let ghost before = api_client.calls();
        let ghost mut made: Seq<ApiCall> = Seq::empty();
        if transactions.len() == 0 {
            assert(api_client.calls() =~= before + made);
            assert(self.deletion_answer(account_name@, transactions@, made, Ok(())));
            assert(deleted(transactions@, made, Ok(())));
            return Ok(());
        }
        let requests = delete_requests(transactions);
        let mut k: usize = 0;
        while k < requests.len()
            invariant
                before == old(api_client).calls(),
                k <= requests@.len(),
                transactions@.len() > 0,
                requests@.len() == batch_count(transactions@.len() as int),
                forall|i: int|
                    0 <= i < requests@.len() ==> #[trigger] requests@[i].ids@ == ids_of(
                        batch_of(transactions@, i),
                    ),
                api_client.calls() == before + made,
                made.len() == k,
                forall|i: int|
                    0 <= i < k ==> #[trigger] is_delete_of(made[i], ids_of(batch_of(transactions@, i))),
                forall|i: int| 0 <= i < k ==> #[trigger] delete_answer(made[i]) is Ok,
            decreases requests@.len() - k,
        {
            let answer = api_client.delete_transactions(&requests[k]);
            let ghost call = ApiCall::DeleteTransactions(requests@[k as int], answer);
            proof {
                assert(api_client.calls() =~= before + made.push(call));
                assert(requests@[k as int].ids@ == ids_of(batch_of(transactions@, k as int)));
                made = made.push(call);
                assert(made.last() == call);
            }
            match answer {
                Ok(unit) => {},
                Err(cause) => {
                    let ghost c0 = cause;
                    assert(delete_answer(made.last()) == Err::<(), ApiError>(c0));
                    let r = Err(LunchMoneyError::api("failed to delete existing transactions", cause));
                    assert(deleted(transactions@, made, r));
                    assert(self.deletion_answer(account_name@, transactions@, made, r));
                    return r;
                },
            }
            k = k + 1;
        }
        assert(deleted(transactions@, made, Ok(())));
        assert(self.deletion_answer(account_name@, transactions@, made, Ok(())));
        Ok(())
    }
}

} // verus!
