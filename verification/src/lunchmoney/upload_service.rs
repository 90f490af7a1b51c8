//! Inserting transactions into a Lunch Money account, 500 per request;
//! a request that fails is sent again one transaction at a time.
use vstd::prelude::*;
use crate::lunchmoney::api::{batch_count, batch_of, concat_runs, lemma_concat_runs_push, ApiCall, ApiError, LunchMoneyApi, LunchMoneyError};
use crate::lunchmoney::dto::{InsertTransactionDto, PostTransactionsRequest, PostTransactionsResponse};

verus! {

/// The transactions of `transactions` from `start` up to `end`, in order.
fn copy_range(transactions: &[InsertTransactionDto], start: usize, end: usize) -> (r: Vec<
    InsertTransactionDto,
>)
    requires
        start <= end <= transactions@.len(),
    ensures
        r@ == transactions@.subrange(start as int, end as int),
{
    let mut r: Vec<InsertTransactionDto> = Vec::new();
    let mut i: usize = start;
    while i < end
        invariant
            start <= i <= end <= transactions@.len(),
            r@ == transactions@.subrange(start as int, i as int),
        decreases end - i,
    {
        r.push(transactions[i].clone());
        assert(transactions@.subrange(start as int, i + 1) =~= transactions@.subrange(
            start as int,
            i as int,
        ).push(transactions@[i as int]));
        i = i + 1;
    }
    r
}

/// The insert requests for `transactions`: in order, 500 per request, the
/// last one holding the rest.
pub fn insert_requests(transactions: &[InsertTransactionDto]) -> (r: Vec<PostTransactionsRequest>)
    ensures
        r@.len() == batch_count(transactions@.len() as int),
        forall|k: int|
            0 <= k < r@.len() ==> #[trigger] r@[k].transactions@ == batch_of(transactions@, k),
{
    let n = transactions.len();
    let mut r: Vec<PostTransactionsRequest> = Vec::new();
    let mut start: usize = 0;
    while start < n
        invariant
            n == transactions@.len(),
            start == if 500 * r@.len() <= n {
                (500 * r@.len()) as int
            } else {
                n as int
            },
            start < n ==> start == 500 * r@.len(),
            start == n ==> r@.len() == batch_count(n as int),
            forall|k: int|
                0 <= k < r@.len() ==> #[trigger] r@[k].transactions@ == batch_of(transactions@, k),
        decreases n - start,
    {
        let end: usize = if n - start > 500 {
            start + 500
        } else {
            n
        };
        let batch = copy_range(transactions, start, end);
        r.push(PostTransactionsRequest { transactions: batch });
        start = end;
    }
    r
}

/// Whether `c` is a post of exactly `items`.
pub open spec fn is_post_of(c: ApiCall, items: Seq<InsertTransactionDto>) -> bool {
    c matches ApiCall::PostTransactions(request, _) && request.transactions@ == items
}

/// What a post was answered.
pub open spec fn post_answer(c: ApiCall) -> Result<PostTransactionsResponse, ApiError> {
    c->PostTransactions_1
}

/// Whether `calls` post the first `n` items of `batch` one at a time, in
/// order, each answered with success.
pub open spec fn singles_posted(
    batch: Seq<InsertTransactionDto>,
    calls: Seq<ApiCall>,
    n: int,
) -> bool {
    &&& calls.len() == n
    &&& forall|j: int|
        #![trigger calls[j]]
        0 <= j < n ==> is_post_of(calls[j], seq![batch[j]]) && post_answer(calls[j]) is Ok
}

/// Whether `run` delivered `batch`: one post of the whole batch, answered
/// with success, or, when that post failed, after it each item posted
/// alone, in order, each with success.
pub open spec fn batch_delivered(batch: Seq<InsertTransactionDto>, run: Seq<ApiCall>) -> bool {
    &&& run.len() >= 1
    &&& is_post_of(run[0], batch)
    &&& if post_answer(run[0]) is Ok {
        run.len() == 1
    } else {
        singles_posted(batch, run.drop_first(), batch.len() as int)
    }
}

/// Whether `run` failed to deliver `batch` with `cause`: the post of the
/// whole batch failed, and of the items then posted alone, in order, each
/// succeeded but the last, which failed with `cause`.
pub open spec fn batch_failed(
    batch: Seq<InsertTransactionDto>,
    run: Seq<ApiCall>,
    cause: ApiError,
) -> bool {
    &&& 2 <= run.len() <= batch.len() + 1
    &&& is_post_of(run[0], batch)
    &&& post_answer(run[0]) is Err
    &&& singles_posted(batch, run.subrange(1, run.len() - 1), run.len() - 2)
    &&& is_post_of(run.last(), seq![batch[run.len() - 2]])
    &&& post_answer(run.last()) == Err::<PostTransactionsResponse, ApiError>(cause)
}

/// Whether `made` are the calls of uploading `transactions` and `r` the
/// result. The requests of `insert_requests` are posted in order, one run
/// per batch (`batch_delivered`): `Ok` once every batch was delivered
/// (with no call when there are no transactions); otherwise the batches
/// before one were delivered, that one failed (`batch_failed`) and nothing
/// is sent after it, and the failure of its last item ends the upload in
/// an `Api` error.
pub open spec fn uploaded(
    transactions: Seq<InsertTransactionDto>,
    made: Seq<ApiCall>,
    r: Result<(), LunchMoneyError>,
) -> bool {
    match r {
        Ok(()) => exists|parts: Seq<Seq<ApiCall>>|
            {
                &&& parts.len() == batch_count(transactions.len() as int)
                &&& forall|k: int|
                    0 <= k < parts.len() ==> #[trigger] batch_delivered(
                        batch_of(transactions, k),
                        parts[k],
                    )
                &&& made == #[trigger] concat_runs(parts)
            },
        Err(e) => exists|parts: Seq<Seq<ApiCall>>, last: Seq<ApiCall>, cause: ApiError|
            #![trigger concat_runs(parts), batch_failed(batch_of(transactions, parts.len() as int), last, cause)]
            {
                &&& parts.len() < batch_count(transactions.len() as int)
                &&& forall|k: int|
                    0 <= k < parts.len() ==> #[trigger] batch_delivered(
                        batch_of(transactions, k),
                        parts[k],
                    )
                &&& batch_failed(batch_of(transactions, parts.len() as int), last, cause)
                &&& made == concat_runs(parts) + last
                &&& e matches LunchMoneyError::Api { context, cause: c }
                &&& context@ == "failed to post transaction to Lunch Money"@
                &&& c == cause
            },
    }
}

proof fn lemma_single_runs(parts: Seq<Seq<ApiCall>>)
    requires
        forall|k: int| 0 <= k < parts.len() ==> (#[trigger] parts[k]).len() == 1,
    ensures
        concat_runs(parts).len() == parts.len(),
        forall|k: int| 0 <= k < parts.len() ==> #[trigger] concat_runs(parts)[k] == parts[k][0],
    decreases parts.len(),
{
    if parts.len() > 0 {
        let init = parts.drop_last();
        assert forall|k: int| 0 <= k < init.len() implies (#[trigger] init[k]).len() == 1 by {
            assert(init[k] == parts[k]);
        }
        lemma_single_runs(init);
        assert forall|k: int| 0 <= k < parts.len() implies #[trigger] concat_runs(parts)[k]
            == parts[k][0] by {
            if k < init.len() {
                assert(init[k] == parts[k]);
            }
        }
    }
}

proof fn lemma_concat_runs_len(parts: Seq<Seq<ApiCall>>, k: int)
    requires
        0 <= k <= parts.len(),
    ensures
        concat_runs(parts.take(k)).len() <= concat_runs(parts).len(),
        concat_runs(parts).subrange(0, concat_runs(parts.take(k)).len() as int) == concat_runs(parts.take(k)),
    decreases parts.len() - k,
{
    if k < parts.len() {
        lemma_concat_runs_len(parts, k + 1);
        assert(parts.take(k + 1).drop_last() =~= parts.take(k));
        let a = concat_runs(parts.take(k));
        let b = concat_runs(parts.take(k + 1));
        assert(b == a + parts[k]);
        assert(concat_runs(parts).subrange(0, a.len() as int) =~= b.subrange(0, a.len() as int));
        assert(b.subrange(0, a.len() as int) =~= a);
    } else {
        assert(parts.take(k) =~= parts);
        assert(concat_runs(parts).subrange(0, concat_runs(parts).len() as int) =~= concat_runs(parts));
    }
}

/// When Lunch Money accepts every post, an upload succeeds and makes
/// exactly one request per batch of `insert_requests`, in order: no
/// request is repeated or split.
pub proof fn upload_accepted_posts_each_batch_once(
    transactions: Seq<InsertTransactionDto>,
    made: Seq<ApiCall>,
    r: Result<(), LunchMoneyError>,
)
    requires
        uploaded(transactions, made, r),
        forall|i: int| 0 <= i < made.len() ==> #[trigger] post_answer(made[i]) is Ok,
    ensures
        r is Ok,
        made.len() == batch_count(transactions.len() as int),
        forall|k: int|
            0 <= k < made.len() ==> #[trigger] is_post_of(made[k], batch_of(transactions, k)),
{
    match r {
        Ok(()) => {
            let parts = choose|parts: Seq<Seq<ApiCall>>|
                {
                    &&& parts.len() == batch_count(transactions.len() as int)
                    &&& forall|k: int|
                        0 <= k < parts.len() ==> #[trigger] batch_delivered(
                            batch_of(transactions, k),
                            parts[k],
                        )
                    &&& made == #[trigger] concat_runs(parts)
                };
            assert forall|k: int| 0 <= k < parts.len() implies (#[trigger] parts[k]).len() == 1 by {
                assert(batch_delivered(batch_of(transactions, k), parts[k]));
                assert(parts.take(k + 1).drop_last() =~= parts.take(k));
                lemma_concat_runs_len(parts, k + 1);
                let a = concat_runs(parts.take(k));
                let b = concat_runs(parts.take(k + 1));
                assert(b == a + parts[k]);
                assert(made.subrange(0, b.len() as int) == b);
                assert(b[a.len() as int] == parts[k][0]);
                assert(made.subrange(0, b.len() as int)[a.len() as int] == made[a.len() as int]);
                assert(made[a.len() as int] == parts[k][0]);
                assert(post_answer(made[a.len() as int]) is Ok);
            }
            lemma_single_runs(parts);
            assert forall|k: int| 0 <= k < made.len() implies #[trigger] is_post_of(
                made[k],
                batch_of(transactions, k),
            ) by {
                assert(batch_delivered(batch_of(transactions, k), parts[k]));
            }
        },
        Err(e) => {
            let (parts, last, cause) = choose|
                parts: Seq<Seq<ApiCall>>,
                last: Seq<ApiCall>,
                cause: ApiError,
            |
                #![trigger concat_runs(parts), batch_failed(batch_of(transactions, parts.len() as int), last, cause)]
                {
                    &&& parts.len() < batch_count(transactions.len() as int)
                    &&& forall|k: int|
                        0 <= k < parts.len() ==> #[trigger] batch_delivered(
                            batch_of(transactions, k),
                            parts[k],
                        )
                    &&& batch_failed(batch_of(transactions, parts.len() as int), last, cause)
                    &&& made == concat_runs(parts) + last
                    &&& e matches LunchMoneyError::Api { context, cause: c }
                    &&& context@ == "failed to post transaction to Lunch Money"@
                    &&& c == cause
                };
            let n = concat_runs(parts).len() as int;
            assert(made[n] == last[0]);
            assert(post_answer(made[n]) is Ok);
        },
    }
}

/// Uploads transactions to an account.
pub trait LunchMoneyTransactionsUploadService {
    /// Whether `made` and `r` are the calls and the result of
    /// `upload_transactions` for the account `account_name` and these
    /// transactions. The trait admits every run; implementations state
    /// theirs in their own contracts.
    closed spec fn upload_answer(
        &self,
        account_name: Seq<char>,
        transactions: Seq<InsertTransactionDto>,
        made: Seq<ApiCall>,
        r: Result<(), LunchMoneyError>,
    ) -> bool {
        true
    }

    fn upload_transactions(
        &self,
        api_client: &mut Box<dyn LunchMoneyApi>,
        account_name: &str,
        transactions: &[InsertTransactionDto],
    ) -> (r: Result<(), LunchMoneyError>)
        ensures
            exists|made: Seq<ApiCall>|
                final(api_client).calls() == old(api_client).calls() + made
                    && #[trigger] self.upload_answer(account_name@, transactions@, made, r),
    ;
}

/// Uploads with the requests of `insert_requests`; when one fails, its
/// transactions are sent again one per request, and the first of those
/// that fails ends the upload.
pub struct DefaultLunchMoneyTransactionsUploadService;

impl LunchMoneyTransactionsUploadService for DefaultLunchMoneyTransactionsUploadService {
    fn upload_transactions(
        &self,
        api_client: &mut Box<dyn LunchMoneyApi>,
        account_name: &str,
        transactions: &[InsertTransactionDto],
    ) -> (r: Result<(), LunchMoneyError>)
        ensures
            exists|made: Seq<ApiCall>|
                final(api_client).calls() == old(api_client).calls() + made
                    && #[trigger] uploaded(transactions@, made, r),
    {
        let ghost before = api_client.calls();
        let ghost mut parts: Seq<Seq<ApiCall>> = Seq::empty();
        if transactions.len() == 0 {
            assert(api_client.calls() =~= before + concat_runs(parts));
            assert(uploaded(transactions@, concat_runs(parts), Ok(())));
            assert(self.upload_answer(account_name@, transactions@, concat_runs(parts), Ok(())));
            return Ok(());
        }
        let requests = insert_requests(transactions);
        let mut k: usize = 0;
        while k < requests.len()
            invariant
                before == old(api_client).calls(),
                k <= requests@.len(),
                transactions@.len() > 0,
                requests@.len() == batch_count(transactions@.len() as int),
                forall|i: int|
                    0 <= i < requests@.len() ==> #[trigger] requests@[i].transactions@ == batch_of(
                        transactions@,
                        i,
                    ),
                api_client.calls() == before + concat_runs(parts),
                parts.len() == k,
                forall|i: int|
                    0 <= i < k ==> #[trigger] batch_delivered(batch_of(transactions@, i), parts[i]),
            decreases requests@.len() - k,
        {
            let request = &requests[k];
            let ghost batch = batch_of(transactions@, k as int);
            assert(request.transactions@ == batch);
            let answer = api_client.post_transactions(request);
            let ghost first = ApiCall::PostTransactions(*request, answer);
            let ghost mut run: Seq<ApiCall> = seq![first];
            assert(api_client.calls() =~= before + concat_runs(parts) + run);
            match answer {
                Ok(response) => {},
                Err(failure) => {
                    let mut j: usize = 0;
                    while j < request.transactions.len()
                        invariant
                            before == old(api_client).calls(),
                            j <= request.transactions@.len(),
                            request.transactions@ == batch,
                            batch == batch_of(transactions@, k as int),
                            k < requests@.len(),
                            transactions@.len() > 0,
                            requests@.len() == batch_count(transactions@.len() as int),
                            parts.len() == k,
                            forall|i: int|
                                0 <= i < k ==> #[trigger] batch_delivered(
                                    batch_of(transactions@, i),
                                    parts[i],
                                ),
                            api_client.calls() == before + concat_runs(parts) + run,
                            run.len() == j + 1,
                            run[0] == first,
                            is_post_of(first, batch),
                            post_answer(first) is Err,
                            singles_posted(batch, run.drop_first(), j as int),
                        decreases request.transactions@.len() - j,
                    {
                        let single = PostTransactionsRequest {
                            transactions: vec![request.transactions[j].clone()],
                        };
                        assert(single.transactions@ =~= seq![batch[j as int]]);
                        let single_answer = api_client.post_transactions(&single);
                        let ghost call = ApiCall::PostTransactions(single, single_answer);
                        proof {
                            assert(api_client.calls() =~= before + concat_runs(parts) + run.push(call));
                            assert(run.push(call).drop_first() =~= run.drop_first().push(call));
                            assert(run.push(call).subrange(1, run.len() as int) =~= run.drop_first());
                            run = run.push(call);
                        }
                        match single_answer {
                            Ok(response) => {},
                            Err(cause) => {
                                let ghost c0 = cause;
                                let r = Err(
                                    LunchMoneyError::api("failed to post transaction to Lunch Money", cause),
                                );
                                assert(batch_failed(batch, run, c0));
                                assert(uploaded(transactions@, concat_runs(parts) + run, r));
                                assert(self.upload_answer(account_name@, transactions@, concat_runs(parts) + run, r));
                                return r;
                            },
                        }
                        j = j + 1;
                    }
                },
            }
            assert(batch_delivered(batch, run));
            proof {
                lemma_concat_runs_push(parts, run);
                parts = parts.push(run);
            }
            k = k + 1;
        }
        assert(uploaded(transactions@, concat_runs(parts), Ok(())));
        assert(self.upload_answer(account_name@, transactions@, concat_runs(parts), Ok(())));
        Ok(())
    }
}

} // verus!
