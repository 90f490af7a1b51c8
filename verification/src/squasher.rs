//! A transformer that squashes every transaction of a date range into one
//! summary transaction, dated on the last day of the range.
use vstd::prelude::*;
use crate::date::Date;
use crate::ids::uuid_new_random;
use crate::model::{TagMap, Transaction};
use crate::money::{Amount, Money};

verus! {

/// Whether `t` falls between `from` and `to`, both included.
pub open spec fn in_range(t: Transaction, from: Date, to: Date) -> bool {
    from.num() <= t.date.num() <= to.num()
}

/// The transactions of `s` in the range, in order.
pub open spec fn matched(s: Seq<Transaction>, from: Date, to: Date) -> Seq<Transaction> {
    s.filter(|t: Transaction| in_range(t, from, to))
}

/// The transactions of `s` outside the range, in order.
pub open spec fn unmatched(s: Seq<Transaction>, from: Date, to: Date) -> Seq<Transaction> {
    s.filter(|t: Transaction| !in_range(t, from, to))
}

/// The currency code of a transaction's amount.
pub open spec fn code_of(t: Transaction) -> Seq<char> {
    t.amount.spec_currency().spec_code()
}

/// Whether two transactions in the range are in different currencies.
pub open spec fn mixed_currencies(s: Seq<Transaction>, from: Date, to: Date) -> bool {
    exists|i: int, j: int|
        0 <= i < s.len() && 0 <= j < s.len() && in_range(s[i], from, to) && in_range(
            s[j],
            from,
            to,
        ) && code_of(s[i]) != code_of(s[j])
}

/// The amounts of the transactions in the range, in order.
pub open spec fn matched_amounts(s: Seq<Transaction>, from: Date, to: Date) -> Seq<Amount> {
    matched(s, from, to).map_values(|t: Transaction| t.amount.spec_amount())
}

/// The sum of amounts, added from the first with `Decimal` addition
/// starting at zero; `None` when an addition overflows.
pub open spec fn sum_amounts(amounts: Seq<Amount>) -> Option<Amount>
    decreases amounts.len(),
{
    if amounts.len() == 0 {
        Some(Amount { mantissa: 0, scale: 0, negative: false })
    } else {
        match sum_amounts(amounts.drop_last()) {
            Some(acc) => crate::money::decimal_sum(acc, amounts.last()),
            None => None,
        }
    }
}

/// Whether squashing changes anything: the range is not empty, holds at
/// least one transaction, and all of them are in one currency.
pub open spec fn squash_applies(s: Seq<Transaction>, from: Date, to: Date) -> bool {
    &&& from.num() <= to.num()
    &&& !mixed_currencies(s, from, to)
    &&& exists|i: int| 0 <= i < s.len() && in_range(s[i], from, to)
}

/// Whether `s` is ordered by date.
pub open spec fn sorted_by_date(s: Seq<Transaction>) -> bool {
    forall|i: int, j: int| 0 <= i < j < s.len() ==> s[i].date.num() <= s[j].date.num()
}

/// The transactions of `s` on day number `d`, in order.
pub open spec fn dated(s: Seq<Transaction>, d: int) -> Seq<Transaction> {
    s.filter(|t: Transaction| t.date.num() == d)
}

/// `output` is `input` sorted by date, transactions of the same day keeping
/// their order.
pub open spec fn stably_sorted_by_date(input: Seq<Transaction>, output: Seq<Transaction>) -> bool {
    &&& output.len() == input.len()
    &&& sorted_by_date(output)
    &&& forall|d: int| #[trigger] dated(output, d) == dated(input, d)
}

/// `t` is the summary of the range: dated `to`, named `name`, in the
/// currency `code` with amount `sum`, no account and no tags.
pub open spec fn is_summary(
    t: Transaction,
    to: Date,
    name: Seq<char>,
    sum: Amount,
    code: Seq<char>,
) -> bool {
    &&& t.date == to
    &&& t.description@ == name
    &&& t.counterparty@ == seq!['S', 'Q', 'U', 'A', 'S', 'H', 'E', 'D']
    &&& t.amount.spec_amount() == sum
    &&& t.amount.spec_currency().spec_code() == code
    &&& t.other_side_account_number is None
    &&& t.tags@ == Map::<Seq<char>, Seq<char>>::empty()
}

/// What squashing the range `from..=to` of `input` into a summary named
/// `name` gives: `input` itself when squashing does not apply; otherwise the
/// transactions outside the range and the summary, sorted by date, those
/// of one day keeping their order.
pub open spec fn squashed(
    input: Seq<Transaction>,
    from: Date,
    to: Date,
    name: Seq<char>,
    output: Seq<Transaction>,
) -> bool {
    if !squash_applies(input, from, to) {
        output == input
    } else {
        let rest = unmatched(input, from, to);
        &&& output.len() == rest.len() + 1
        &&& sorted_by_date(output)
        &&& forall|d: int| d != to.num() ==> #[trigger] dated(output, d) == dated(rest, d)
        &&& dated(output, to.num()).len() == 1
        &&& is_summary(
            dated(output, to.num())[0],
            to,
            name,
            sum_amounts(matched_amounts(input, from, to))->0,
            code_of(matched(input, from, to)[0]),
        )
    }
}

/// Settings of a squasher.
pub struct SquasherConfig {
    pub name: String,
    pub from_date: Date,
    pub to_date: Date,
    pub squashed_name: String,
}

impl SquasherConfig {
    pub fn new(name: String, from_date: Date, to_date: Date, squashed_name: String) -> (c: Self)
        ensures
            c.name == name,
            c.from_date == from_date,
            c.to_date == to_date,
            c.squashed_name == squashed_name,
    {
        SquasherConfig { name, from_date, to_date, squashed_name }
    }
}

/// Squashes the transactions of a date range into one.
pub struct SquasherTransformer {
    name: String,
    from_date: Date,
    to_date: Date,
    squashed_name: String,
}

/// The squasher that `config` describes.
pub fn create_squasher(config: SquasherConfig) -> (t: SquasherTransformer)
    ensures
        t.spec_name() == config.name,
        t.spec_from() == config.from_date,
        t.spec_to() == config.to_date,
        t.spec_squashed_name() == config.squashed_name,
{
    SquasherTransformer {
        name: config.name,
        from_date: config.from_date,
        to_date: config.to_date,
        squashed_name: config.squashed_name,
    }
}

/// Whether any two transactions in the range are in different currencies.
pub fn contains_mixed_currencies_in_range(transactions: &[Transaction], from_date: Date, to_date: Date) -> (r: bool)
    ensures
        r == mixed_currencies(transactions@, from_date, to_date),
{
    let n = transactions.len();
    let mut first: Option<usize> = None;
    let mut i: usize = 0;
    while i < n
        invariant
            i <= n == transactions@.len(),
            match first {
                None => forall|k: int| 0 <= k < i ==> !in_range(transactions@[k], from_date, to_date),
                Some(f) => f < i && in_range(transactions@[f as int], from_date, to_date) && forall|k: int|
                    0 <= k < i && in_range(transactions@[k], from_date, to_date) ==> code_of(
                        #[trigger] transactions@[k],
                    ) == code_of(transactions@[f as int]),
            },
        decreases n - i,
    {
        let tx = &transactions[i];
        let inside = from_date.le(&tx.date) && tx.date.le(&to_date);
        if inside {
            match first {
                None => {
                    first = Some(i);
                },
                Some(f) => {
                    if !transactions[f].amount.currency().same_as(tx.amount.currency()) {
                        assert(code_of(transactions@[f as int]) != code_of(transactions@[i as int]));
                        return true;
                    }
                },
            }
        }
        i = i + 1;
    }
    proof {
        if mixed_currencies(transactions@, from_date, to_date) {
            let (a, b) = choose|a: int, b: int|
                0 <= a < transactions@.len() && 0 <= b < transactions@.len() && in_range(
                    transactions@[a],
                    from_date,
                    to_date,
                ) && in_range(transactions@[b], from_date, to_date) && code_of(transactions@[a])
                    != code_of(transactions@[b]);
            assert(code_of(transactions@[a]) == code_of(transactions@[b]));
        }
    }
    false
}

/// The sum of the amounts of the transactions in the range, or `None` when
/// adding them up overflows.
fn sum_in_range(transactions: &Vec<Transaction>, from_date: &Date, to_date: &Date) -> (r: Option<Amount>)
    ensures
        r == sum_amounts(matched_amounts(transactions@, *from_date, *to_date)),
        r matches Some(a) ==> a.wf(),
{
    let ghost s = transactions@;
    let n = transactions.len();
    let mut acc: Option<Amount> = Some(Amount::zero());
    let mut i: usize = 0;
    while i < n
        invariant
            i <= n == s.len(),
            s == transactions@,
            acc == sum_amounts(matched_amounts(s.take(i as int), *from_date, *to_date)),
            acc matches Some(a) ==> a.wf(),
        decreases n - i,
    {
        let tx = &transactions[i];
        let inside = from_date.le(&tx.date) && tx.date.le(to_date);
        proof {
            let pred = |t: Transaction| in_range(t, *from_date, *to_date);
            let f = |t: Transaction| t.amount.spec_amount();
            assert(s.take(i + 1) =~= s.take(i as int).push(s[i as int]));
            s.take(i as int).lemma_filter_push(s[i as int], pred);
            let before = s.take(i as int).filter(pred);
            assert(before.push(s[i as int]).map_values(f) =~= before.map_values(f).push(
                f(s[i as int]),
            ));
            assert(before.map_values(f).push(f(s[i as int])).drop_last() =~= before.map_values(
                f,
            ));
        }
        if inside {
            let amount = tx.amount.amount();
            acc = match acc {
                Some(a) => a.checked_add(&amount),
                None => None,
            };
        }
        i = i + 1;
    }
    assert(s.take(n as int) =~= s);
    acc
}

/// The index of the first transaction in the range, or `None` when there
/// is none.
fn first_in_range(transactions: &Vec<Transaction>, from_date: &Date, to_date: &Date) -> (r: Option<usize>)
    ensures
        match r {
            None => forall|k: int| 0 <= k < transactions@.len() ==> !in_range(#[trigger] transactions@[k], *from_date, *to_date),
            Some(f) => f < transactions@.len() && in_range(transactions@[f as int], *from_date, *to_date)
                && forall|k: int| 0 <= k < f ==> !in_range(#[trigger] transactions@[k], *from_date, *to_date),
        },
{
    let n = transactions.len();
    let mut i: usize = 0;
    while i < n
        invariant
            i <= n == transactions@.len(),
            forall|k: int| 0 <= k < i ==> !in_range(#[trigger] transactions@[k], *from_date, *to_date),
        decreases n - i,
    {
        let tx = &transactions[i];
        if from_date.le(&tx.date) && tx.date.le(to_date) {
            return Some(i);
        }
        i = i + 1;
    }
    None
}

proof fn lemma_filter_empty(s: Seq<Transaction>, pred: spec_fn(Transaction) -> bool)
    requires
        forall|k: int| 0 <= k < s.len() ==> !pred(#[trigger] s[k]),
    ensures
        s.filter(pred) == Seq::<Transaction>::empty(),
{
    s.filter_lemma(pred);
    if s.filter(pred).len() > 0 {
        let x = s.filter(pred)[0];
        assert(pred(x));
        assert(s.filter(pred).contains(x));
        s.lemma_filter_contains_rev(pred, x);
        let k = choose|k: int| 0 <= k < s.len() && s[k] == x;
        assert(!pred(s[k]));
    }
    assert(s.filter(pred) =~= Seq::<Transaction>::empty());
}

/// Inserting `x` where everything before is earlier and nothing after is
/// earlier adds `x` in front of the transactions of its day.
proof fn lemma_dated_insert(out: Seq<Transaction>, pos: int, x: Transaction, d: int)
    requires
        0 <= pos <= out.len(),
        forall|k: int| 0 <= k < pos ==> (#[trigger] out[k]).date.num() < x.date.num(),
        forall|k: int| pos <= k < out.len() ==> (#[trigger] out[k]).date.num() >= x.date.num(),
    ensures
        dated(out.insert(pos, x), d) == if x.date.num() == d {
            seq![x] + dated(out, d)
        } else {
            dated(out, d)
        },
{
    let pred = |t: Transaction| t.date.num() == d;
    let head = out.take(pos);
    let tail = out.skip(pos);
    assert(out.insert(pos, x) =~= head + (seq![x] + tail));
    assert(out =~= head + tail);
    Seq::filter_distributes_over_add(head, seq![x] + tail, pred);
    Seq::filter_distributes_over_add(seq![x], tail, pred);
    Seq::filter_distributes_over_add(head, tail, pred);
    Seq::<Transaction>::empty().lemma_filter_push(x, pred);
    assert(seq![x] =~= Seq::<Transaction>::empty().push(x));
    assert(Seq::<Transaction>::empty().filter(pred) =~= Seq::<Transaction>::empty()) by {
        reveal(Seq::filter);
    }
    if x.date.num() == d {
        assert forall|k: int| 0 <= k < head.len() implies !pred(#[trigger] head[k]) by {
            assert(head[k] == out[k]);
        }
        lemma_filter_empty(head, pred);
    }
}

/// `input` sorted by date; transactions of one day keep their order.
fn sort_by_date(input: Vec<Transaction>) -> (r: Vec<Transaction>)
    ensures
        stably_sorted_by_date(input@, r@),
{
    let ghost s = input@;
    let mut rest = input;
    let mut out: Vec<Transaction> = Vec::new();
    while rest.len() > 0
        invariant
            rest@ == s.take(rest@.len() as int),
            rest@.len() <= s.len(),
            out@.len() + rest@.len() == s.len(),
            sorted_by_date(out@),
            forall|d: int| #[trigger] dated(out@, d) == dated(s.skip(rest@.len() as int), d),
        decreases rest@.len(),
    {
        let m = rest.len();
        let x = rest.pop().unwrap();
        let key = x.date.day_number();
        let mut pos: usize = 0;
        while pos < out.len() && out[pos].date.day_number() < key
            invariant
                pos <= out@.len(),
                key == x.date.num(),
                forall|k: int| 0 <= k < pos ==> (#[trigger] out@[k]).date.num() < x.date.num(),
            decreases out@.len() - pos,
        {
            pos = pos + 1;
        }
        proof {
            assert forall|k: int| pos <= k < out@.len() implies (#[trigger] out@[k]).date.num()
                >= x.date.num() by {
                assert(out@[pos as int].date.num() <= out@[k].date.num());
            }
            assert(s.skip(m - 1) =~= seq![x] + s.skip(m as int));
            assert forall|d: int| #[trigger] dated(out@.insert(pos as int, x), d) == dated(s.skip(m - 1), d) by {
                lemma_dated_insert(out@, pos as int, x, d);
                let pred = |t: Transaction| t.date.num() == d;
                Seq::filter_distributes_over_add(seq![x], s.skip(m as int), pred);
                Seq::<Transaction>::empty().lemma_filter_push(x, pred);
                assert(seq![x] =~= Seq::<Transaction>::empty().push(x));
                assert(Seq::<Transaction>::empty().filter(pred) =~= Seq::<Transaction>::empty()) by {
                    reveal(Seq::filter);
                }
            }
        }
        out.insert(pos, x);
    }
    assert(s.skip(0) =~= s);
    out
}

/// The transactions outside the range, in order.
fn take_unmatched(input: Vec<Transaction>, from_date: &Date, to_date: &Date) -> (r: Vec<Transaction>)
    ensures
        r@ == unmatched(input@, *from_date, *to_date),
{
    let ghost s = input@;
    let n = input.len();
    // Taken from the back, so `reversed` holds them last first.
    let mut rest = input;
    let mut reversed: Vec<Transaction> = Vec::new();
    while rest.len() > 0
        invariant
            n == s.len(),
            rest@ == s.take(n - reversed@.len()),
            reversed@.len() <= n,
            forall|k: int| 0 <= k < reversed@.len() ==> #[trigger] reversed@[k] == s[n - 1 - k],
        decreases rest@.len(),
    {
        let x = rest.pop().unwrap();
        reversed.push(x);
    }
    let mut kept: Vec<Transaction> = Vec::new();
    while reversed.len() > 0
        invariant
            n == s.len(),
            reversed@.len() <= n,
            forall|k: int| 0 <= k < reversed@.len() ==> #[trigger] reversed@[k] == s[n - 1 - k],
            kept@ == unmatched(s.take(n - reversed@.len()), *from_date, *to_date),
        decreases reversed@.len(),
    {
        let ghost j = n - reversed@.len();
        assert(reversed@[reversed@.len() - 1] == s[j]);
        let x = reversed.pop().unwrap();
        proof {
            assert(s.take(j + 1) =~= s.take(j).push(s[j]));
            s.take(j).lemma_filter_push(s[j], |t: Transaction| !in_range(t, *from_date, *to_date));
        }
        let inside = from_date.le(&x.date) && x.date.le(to_date);
        if !inside {
            kept.push(x);
        }
    }
    assert(s.take(n as int) =~= s);
    kept
}

impl SquasherTransformer {
    pub closed spec fn spec_name(self) -> String {
        self.name
    }

    pub closed spec fn spec_from(self) -> Date {
        self.from_date
    }

    pub closed spec fn spec_to(self) -> Date {
        self.to_date
    }

    pub closed spec fn spec_squashed_name(self) -> String {
        self.squashed_name
    }

    pub fn name(&self) -> (r: &str)
        ensures
            r@ == self.spec_name()@,
    {
        self.name.as_str()
    }

    /// Whether squashing `transactions` would overflow when adding up the
    /// amounts in the range.
    pub open spec fn overflows(self, transactions: Seq<Transaction>) -> bool {
        &&& squash_applies(transactions, self.spec_from(), self.spec_to())
        &&& sum_amounts(matched_amounts(transactions, self.spec_from(), self.spec_to())) is None
    }

    /// Squashes the range of `transactions` into one transaction with UUID
    /// `id` (see `squashed`).
    pub fn squash(&self, transactions: Vec<Transaction>, id: u128) -> (r: Vec<Transaction>)
        requires
            !self.overflows(transactions@),
        ensures
            squashed(
                transactions@,
                self.spec_from(),
                self.spec_to(),
                self.spec_squashed_name()@,
                r@,
            ),
            squash_applies(transactions@, self.spec_from(), self.spec_to()) ==> dated(
                r@,
                self.spec_to().num(),
            )[0].id == id,
    {
        let from = self.from_date;
        let to = self.to_date;
        if !from.le(&to) {
            return transactions;
        }
        if contains_mixed_currencies_in_range(transactions.as_slice(), from, to) {
            return transactions;
        }
        let f = match first_in_range(&transactions, &from, &to) {
            None => {
                return transactions;
            },
            Some(f) => f,
        };
        let ghost s = transactions@;
        let currency = transactions[f].amount.currency().clone();
        let total = match sum_in_range(&transactions, &from, &to) {
            Some(a) => a,
            None => {
                return transactions;
            },
        };
        let mut rest = take_unmatched(transactions, &from, &to);
        let ghost rest0 = rest@;
        let counterparty = "SQUASHED".to_string();
        proof {
            reveal_strlit("SQUASHED");
            assert(counterparty@ =~= seq!['S', 'Q', 'U', 'A', 'S', 'H', 'E', 'D']);
        }
        let summary = Transaction {
            id,
            date: to,
            description: self.squashed_name.clone(),
            counterparty,
            amount: Money::from_decimal(total, currency),
            other_side_account_number: None,
            tags: TagMap::new(),
        };
        rest.push(summary);
        let r = sort_by_date(rest);
        proof {
            let pred = |t: Transaction| in_range(t, from, to);
            let m = matched(s, from, to);
            s.filter_lemma(pred);
            assert(m.len() > 0) by {
                assert(pred(s[f as int]));
                assert(m.contains(s[f as int]));
            }
            assert(code_of(m[0]) == code_of(s[f as int])) by {
                assert(pred(m[0]));
                assert(m.contains(m[0]));
                s.lemma_filter_contains_rev(pred, m[0]);
                let k = choose|k: int| 0 <= k < s.len() && s[k] == m[0];
                assert(in_range(s[k], from, to));
            }
            let notpred = |t: Transaction| !in_range(t, from, to);
            s.filter_lemma(notpred);
            assert forall|d: int| #[trigger] dated(r@, d) == if d == to.num() {
                seq![summary]
            } else {
                dated(rest0, d)
            } by {
                let dp = |t: Transaction| t.date.num() == d;
                rest0.lemma_filter_push(summary, dp);
                if d == to.num() {
                    assert forall|k: int| 0 <= k < rest0.len() implies !dp(#[trigger] rest0[k]) by {
                        assert(notpred(rest0[k]));
                    }
                    lemma_filter_empty(rest0, dp);
                    assert(Seq::<Transaction>::empty().push(summary) =~= seq![summary]);
                }
            }
            assert(dated(r@, to.num()) == seq![summary]);
        }
        r
    }

    /// Squashes the range of `transactions` into one transaction with a new
    /// random UUID; leaves them unchanged when the range is empty or holds
    /// no transaction, or when its transactions are in more than one
    /// currency.
    pub fn transform(&self, transactions: Vec<Transaction>) -> (r: Vec<Transaction>)
        requires
            !self.overflows(transactions@),
        ensures
            squashed(
                transactions@,
                self.spec_from(),
                self.spec_to(),
                self.spec_squashed_name()@,
                r@,
            ),
    {
        let id = uuid_new_random();
        self.squash(transactions, id)
    }

    /// `transform`, or the transactions unchanged in `Err` when adding up
    /// the amounts in the range would overflow.
    pub fn checked_transform(&self, transactions: Vec<Transaction>) -> (r: Result<
        Vec<Transaction>,
        Vec<Transaction>,
    >)
        ensures
            r is Err <==> self.overflows(transactions@),
            match r {
                Ok(out) => squashed(
                    transactions@,
                    self.spec_from(),
                    self.spec_to(),
                    self.spec_squashed_name()@,
                    out@,
                ),
                Err(same) => same@ == transactions@,
            },
    {
        let from = self.from_date;
        let to = self.to_date;
        let applies = from.le(&to) && !contains_mixed_currencies_in_range(
            transactions.as_slice(),
            from,
            to,
        ) && first_in_range(&transactions, &from, &to).is_some();
        if applies && sum_in_range(&transactions, &from, &to).is_none() {
            return Err(transactions);
        }
        Ok(self.transform(transactions))
    }
}

} // verus!
