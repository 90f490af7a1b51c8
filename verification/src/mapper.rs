//! Turning bank transactions into pipeline transactions with stable,
//! name-based UUIDs.
use vstd::prelude::*;
use crate::date::iso_date;
use crate::ids::{uuid_v5_oid, uuid_v5_from_bytes};
use crate::model::{BankTransaction, NonEmptyString, Transaction, TagMap};
use crate::money::money_text;
use crate::text::{decimal, push_char};
use vstd::hash_map::StringHashMap;

verus! {

/// What `{:?}` writes for a string: quoted, with special characters escaped.
pub uninterp spec fn debug_text(s: Seq<char>) -> Seq<char>;

/// `Debug` of `str`.
#[verifier::external_body]
fn debug_str(s: &str) -> (r: String)
    ensures
        r@ == debug_text(s@),
{
    format!("{:?}", s)
}

/// What `{:?}` writes for an optional account number.
pub open spec fn account_debug_text(o: Option<NonEmptyString>) -> Seq<char> {
    match o {
        None => seq!['N', 'o', 'n', 'e'],
        Some(n) => seq!['S', 'o', 'm', 'e', '(']
            + seq!['N', 'o', 'n', 'E', 'm', 'p', 't', 'y', 'S', 't', 'r', 'i', 'n', 'g', '(']
            + debug_text(n@) + seq![')', ')'],
    }
}

/// How many of the first `n` transactions have description `d`.
pub open spec fn count_before(txs: Seq<BankTransaction>, d: Seq<char>, n: int) -> nat
    decreases n,
{
    if n <= 0 {
        0
    } else {
        count_before(txs, d, n - 1) + if txs[n - 1].description@ == d {
            1nat
        } else {
            0
        }
    }
}

/// Which occurrence of its description the transaction at position `i` is,
/// counting from one.
pub open spec fn occurrence(txs: Seq<BankTransaction>, i: int) -> nat {
    count_before(txs, txs[i].description@, i + 1)
}

/// Whether no description occurs more often than a `u32` counter counts.
pub open spec fn counters_fit(txs: Seq<BankTransaction>) -> bool {
    forall|d: Seq<char>| #[trigger] count_before(txs, d, txs.len() as int) <= u32::MAX
}

proof fn lemma_count_before_monotone(txs: Seq<BankTransaction>, d: Seq<char>, n: int, m: int)
    requires
        0 <= n <= m,
    ensures
        count_before(txs, d, n) <= count_before(txs, d, m),
    decreases m - n,
{
    if n < m {
        lemma_count_before_monotone(txs, d, n, m - 1);
    }
}

/// Two transactions with the same description get different counters, the
/// later one a larger counter, so repeats of one transaction are told
/// apart.
pub proof fn repeats_get_increasing_counters(txs: Seq<BankTransaction>, i: int, j: int)
    requires
        0 <= i < j < txs.len(),
        txs[i].description@ == txs[j].description@,
    ensures
        1 <= occurrence(txs, i) < occurrence(txs, j),
{
    let d = txs[j].description@;
    lemma_count_before_monotone(txs, d, i + 1, j);
    assert(count_before(txs, d, j + 1) == count_before(txs, d, j) + 1);
    assert(count_before(txs, d, i + 1) == count_before(txs, d, i) + 1);
}

/// The text a transaction's stable id is made from:
/// `date-description-amount-counterparty-account-counter`.
pub open spec fn stable_text(tx: BankTransaction, counter: nat) -> Seq<char> {
    iso_date(tx.date.spec_year(), tx.date.spec_month(), tx.date.spec_day()) + seq!['-']
        + tx.description@ + seq!['-'] + money_text(
        tx.amount.spec_amount(),
        tx.amount.spec_currency().spec_code(),
    ) + seq!['-'] + tx.counterparty@ + seq!['-'] + account_debug_text(
        tx.other_side_account_number,
    ) + seq!['-'] + decimal(counter)
}

/// The UTF-8 encoding of a text.
pub open spec fn utf8(s: Seq<char>) -> Seq<u8> {
    vstd::utf8::encode_utf8(s)
}

/// The stable id of a transaction that is occurrence `counter` of its
/// description.
pub open spec fn stable_id(tx: BankTransaction, counter: nat) -> u128 {
    uuid_v5_oid(utf8(stable_text(tx, counter)))
}

fn append_char(s: &mut String, c: char)
    ensures
        final(s)@ == old(s)@ + seq![c],
{
    push_char(s, c);
    assert(old(s)@.push(c) == old(s)@ + seq![c]);
}

fn append_literal(s: &mut String, lit: &str)
    ensures
        final(s)@ == old(s)@ + lit@,
{
    s.append(lit);
}

/// The text a transaction's stable id is made from.
fn generate_stable_text(bank_tx: &BankTransaction, counter: u32) -> (s: String)
    ensures
        s@ == stable_text(*bank_tx, counter as nat),
{
    let mut s = bank_tx.date.to_iso_string();
    append_char(&mut s, '-');
    s.append(bank_tx.description.as_str());
    append_char(&mut s, '-');
    let money = bank_tx.amount.to_display_string();
    s.append(money.as_str());
    append_char(&mut s, '-');
    s.append(bank_tx.counterparty.as_str());
    append_char(&mut s, '-');
    match &bank_tx.other_side_account_number {
        None => {
            let lit = "None";
            proof {
                reveal_strlit("None");
            }
            append_literal(&mut s, lit);
        },
        Some(n) => {
            let lit = "Some(NonEmptyString(";
            proof {
                reveal_strlit("Some(NonEmptyString(");
            }
            append_literal(&mut s, lit);
            let d = debug_str(n.as_str());
            s.append(d.as_str());
            let close = "))";
            proof {
                reveal_strlit("))");
            }
            append_literal(&mut s, close);
            assert(seq!['S', 'o', 'm', 'e', '('] + seq![
                'N', 'o', 'n', 'E', 'm', 'p', 't', 'y', 'S', 't', 'r', 'i', 'n', 'g', '('
            ] =~= lit@);
        },
    }
    append_char(&mut s, '-');
    let c = crate::text::u64_to_decimal(counter as u64);
    s.append(c.as_str());
    s
}

/// The stable id of a transaction that is occurrence `counter` of its
/// description.
pub fn generate_stable_id(bank_tx: &BankTransaction, counter: u32) -> (id: u128)
    ensures
        id == stable_id(*bank_tx, counter as nat),
{
    let text = generate_stable_text(bank_tx, counter);
    uuid_v5_from_bytes(text.as_str().as_bytes())
}

/// Two transactions share the UUID `id`.
#[derive(Clone, Debug, PartialEq)]
pub struct DuplicateTransactionId {
    pub id: u128,
}

/// Whether `id` is the UUID of two different positions of `ids`.
pub open spec fn is_duplicated(ids: Seq<u128>, id: u128) -> bool {
    exists|i: int, j: int| 0 <= i < j < ids.len() && ids[i] == id && ids[j] == id
}

/// Whether `id` is at some position before `n` and again at a later one.
spec fn duplicated_among_first(ids: Seq<u128>, id: u128, n: int) -> bool {
    exists|i: int, j: int| 0 <= i < j < ids.len() && i < n && ids[i] == id && ids[j] == id
}

/// Checks that no two ids are the same; otherwise reports the smallest
/// id that occurs twice.
pub fn verify_unique_ids(ids: &[u128]) -> (r: Result<(), DuplicateTransactionId>)
    ensures
        match r {
            Ok(()) => forall|i: int, j: int| 0 <= i < j < ids@.len() ==> ids@[i] != ids@[j],
            Err(e) => is_duplicated(ids@, e.id) && forall|x: u128| is_duplicated(ids@, x) ==> e.id <= x,
        },
{
    let n = ids.len();
    let mut smallest: Option<u128> = None;
    let mut i: usize = 0;
    while i < n
        invariant
            i <= n == ids@.len(),
            match smallest {
                Some(m) => is_duplicated(ids@, m) && forall|x: u128|
                    #[trigger] duplicated_among_first(ids@, x, i as int) ==> m <= x,
                None => forall|a: int, b: int| 0 <= a < b < ids@.len() && a < i ==> ids@[a] != ids@[b],
            },
        decreases n - i,
    {
        let mut j: usize = i + 1;
        let mut dup = false;
        while j < n
            invariant
                i < j <= n == ids@.len(),
                dup == exists|b: int| i < b < j && ids@[b] == ids@[i as int],
            decreases n - j,
        {
            if ids[j] == ids[i] {
                dup = true;
            }
            j = j + 1;
        }
        proof {
            if dup {
                let b = choose|b: int| i < b < j && ids@[b] == ids@[i as int];
                assert(ids@[i as int] == ids@[b]);
            }
            assert forall|x: u128| #[trigger] duplicated_among_first(ids@, x, i + 1) implies
                duplicated_among_first(ids@, x, i as int) || (dup && x == ids@[i as int]) by {
                let (a, b) = choose|a: int, b: int|
                    0 <= a < b < ids@.len() && a < i + 1 && ids@[a] == x && ids@[b] == x;
                if a < i {
                    assert(duplicated_among_first(ids@, x, i as int));
                } else {
                    assert(ids@[b] == ids@[i as int]);
                }
            }
        }
        if dup {
            match smallest {
                Some(m) => {
                    if ids[i] < m {
                        smallest = Some(ids[i]);
                    }
                },
                None => {
                    smallest = Some(ids[i]);
                },
            }
        }
        i = i + 1;
    }
    proof {
        if let Some(m) = smallest {
            assert forall|x: u128| is_duplicated(ids@, x) implies m <= x by {
                assert(duplicated_among_first(ids@, x, n as int));
            }
        }
    }
    match smallest {
        Some(m) => Err(DuplicateTransactionId { id: m }),
        None => Ok(()),
    }
}

/// The ids that mapping gives to a list of bank transactions.
pub open spec fn mapped_ids(txs: Seq<BankTransaction>) -> Seq<u128> {
    Seq::new(txs.len(), |i: int| stable_id(txs[i], occurrence(txs, i)))
}

/// `t` is bank transaction `b` carried over under `id`, with no tags.
pub open spec fn carries(t: Transaction, b: BankTransaction, id: u128) -> bool {
    &&& t.id == id
    &&& t.date == b.date
    &&& t.description == b.description
    &&& t.counterparty == b.counterparty
    &&& t.amount == b.amount
    &&& t.other_side_account_number == b.other_side_account_number
    &&& t.tags@ == Map::<Seq<char>, Seq<char>>::empty()
}

proof fn lemma_count_before_bounded(txs: Seq<BankTransaction>, d: Seq<char>, n: int)
    requires
        n >= 0,
    ensures
        count_before(txs, d, n) <= n,
    decreases n,
{
    if n > 0 {
        lemma_count_before_bounded(txs, d, n - 1);
    }
}

/// Whether no description of `bank_txs` occurs more often than a `u32`
/// counter counts (`counters_fit`), so that
/// `map_bank_transaction_to_transaction` can number them.
pub fn counters_fit_check(bank_txs: &Vec<BankTransaction>) -> (r: bool)
    ensures
        r == counters_fit(bank_txs@),
{
    let n = bank_txs.len();
    let mut counts: StringHashMap<u64> = StringHashMap::new();
    let mut fits = true;
    let mut i: usize = 0;
    while i < n
        invariant
            i <= n == bank_txs@.len(),
            forall|d: Seq<char>|
                #[trigger] count_before(bank_txs@, d, i as int) == if counts@.contains_key(d) {
                    counts@[d] as nat
                } else {
                    0nat
                },
            fits <==> forall|d: Seq<char>| #[trigger] count_before(bank_txs@, d, i as int) <= u32::MAX,
        decreases n - i,
    {
        let tx = &bank_txs[i];
        let ghost d = tx.description@;
        let previous: u64 = match counts.get(tx.description.as_str()) {
            Some(c) => *c,
            None => 0,
        };
        proof {
            assert(count_before(bank_txs@, d, i as int) == previous);
            lemma_count_before_bounded(bank_txs@, d, i as int);
            assert(usize::MAX <= u64::MAX);
        }
        let count = previous + 1;
        let ghost before = counts@;
        let ghost fits_before = fits;
        counts.insert(tx.description.clone(), count);
        if count > 0xFFFF_FFFFu64 {
            fits = false;
        }
        proof {
            assert forall|e: Seq<char>|
                #[trigger] count_before(bank_txs@, e, i + 1) == if counts@.contains_key(e) {
                    counts@[e] as nat
                } else {
                    0nat
                } by {
                assert(count_before(bank_txs@, e, i as int) == if before.contains_key(e) {
                    before[e] as nat
                } else {
                    0nat
                });
            }
            assert(count_before(bank_txs@, d, i + 1) == count);
            if fits {
                assert forall|e: Seq<char>| #[trigger] count_before(bank_txs@, e, i + 1) <= u32::MAX by {
                    assert(count_before(bank_txs@, e, i as int) <= u32::MAX);
                }
            } else if fits_before {
                assert(count_before(bank_txs@, d, i + 1) > u32::MAX);
            } else {
                let w = choose|e: Seq<char>| #[trigger] count_before(bank_txs@, e, i as int) > u32::MAX;
                lemma_count_before_monotone(bank_txs@, w, i as int, i + 1);
            }
        }
        i = i + 1;
    }
    fits
}

/// The stable id of every transaction, in order; the n-th transaction with
/// a given description gets counter n.
fn stable_ids(bank_txs: &Vec<BankTransaction>) -> (ids: Vec<u128>)
    requires
        counters_fit(bank_txs@),
    ensures
        ids@ == mapped_ids(bank_txs@),
{
    let n = bank_txs.len();
    let mut ids: Vec<u128> = Vec::new();
    let mut counters: StringHashMap<u32> = StringHashMap::new();
    let mut i: usize = 0;
    while i < n
        invariant
            i <= n == bank_txs@.len(),
            counters_fit(bank_txs@),
            ids@.len() == i,
            forall|k: int| 0 <= k < i ==> ids@[k] == mapped_ids(bank_txs@)[k],
            forall|d: Seq<char>|
                #[trigger] count_before(bank_txs@, d, i as int) == if counters@.contains_key(d) {
                    counters@[d] as nat
                } else {
                    0nat
                },
        decreases n - i,
    {
        let tx = &bank_txs[i];
        let ghost d = tx.description@;
        let previous: u32 = match counters.get(tx.description.as_str()) {
            Some(c) => *c,
            None => 0,
        };
        proof {
            assert(count_before(bank_txs@, d, i as int) == previous);
            lemma_count_before_monotone(bank_txs@, d, i + 1, n as int);
            assert(count_before(bank_txs@, d, n as int) <= u32::MAX);
        }
        let counter = previous + 1;
        let ghost before = counters@;
        counters.insert(tx.description.clone(), counter);
        let id = generate_stable_id(tx, counter);
        ids.push(id);
        proof {
            assert forall|e: Seq<char>|
                #[trigger] count_before(bank_txs@, e, i + 1) == if counters@.contains_key(e) {
                    counters@[e] as nat
                } else {
                    0nat
                } by {
                assert(count_before(bank_txs@, e, i as int) == if before.contains_key(e) {
                    before[e] as nat
                } else {
                    0nat
                });
            }
        }
        i = i + 1;
    }
    assert(ids@ == mapped_ids(bank_txs@));
    ids
}

/// Gives each bank transaction its stable id and carries it over with no
/// tags. Fails, naming the smallest repeated id, when two of them would
/// share an id.
pub fn map_bank_transaction_to_transaction(bank_txs: Vec<BankTransaction>) -> (r: Result<
    Vec<Transaction>,
    DuplicateTransactionId,
>)
    requires
        counters_fit(bank_txs@),
    ensures
        r is Ok <==> forall|i: int, j: int|
            0 <= i < j < bank_txs@.len() ==> mapped_ids(bank_txs@)[i] != mapped_ids(bank_txs@)[j],
        match r {
            Ok(txs) => txs@.len() == bank_txs@.len() && forall|i: int|
                0 <= i < txs@.len() ==> #[trigger] carries(
                    txs@[i],
                    bank_txs@[i],
                    mapped_ids(bank_txs@)[i],
                ),
            Err(e) => is_duplicated(mapped_ids(bank_txs@), e.id) && forall|x: u128|
                is_duplicated(mapped_ids(bank_txs@), x) ==> e.id <= x,
        },
{
    let ids = stable_ids(&bank_txs);
    match verify_unique_ids(ids.as_slice()) {
        Err(e) => {
            return Err(e);
        },
        Ok(()) => {},
    }
    let n = bank_txs.len();
    let ghost inputs = bank_txs@;
    // Taken from the back, so `reversed` holds them last first.
    let mut rest = bank_txs;
    let mut reversed: Vec<Transaction> = Vec::new();
    while rest.len() > 0
        invariant
            n == inputs.len() == ids@.len(),
            rest@ == inputs.take(n - reversed@.len()),
            reversed@.len() <= n,
            forall|k: int|
                0 <= k < reversed@.len() ==> #[trigger] carries(
                    reversed@[k],
                    inputs[n - 1 - k],
                    ids@[n - 1 - k],
                ),
        decreases rest@.len(),
    {
        let k = rest.len() - 1;
        let b = rest.pop().unwrap();
        let t = Transaction {
            id: ids[k],
            date: b.date,
            description: b.description,
            counterparty: b.counterparty,
            amount: b.amount,
            other_side_account_number: b.other_side_account_number,
            tags: TagMap::new(),
        };
        reversed.push(t);
    }
    let mut txs: Vec<Transaction> = Vec::new();
    while reversed.len() > 0
        invariant
            n == inputs.len() == ids@.len(),
            reversed@.len() + txs@.len() == n,
            forall|k: int|
                0 <= k < reversed@.len() ==> #[trigger] carries(
                    reversed@[k],
                    inputs[n - 1 - k],
                    ids@[n - 1 - k],
                ),
            forall|k: int|
                0 <= k < txs@.len() ==> #[trigger] carries(txs@[k], inputs[k], ids@[k]),
        decreases reversed@.len(),
    {
        let ghost last = reversed@.len() - 1;
        assert(carries(reversed@[last], inputs[n - 1 - last], ids@[n - 1 - last]));
        let t = reversed.pop().unwrap();
        txs.push(t);
    }
    Ok(txs)
}

} // verus!
