//! Bank transactions grouped by day, so that exports covering overlapping
//! periods can be merged without duplicating days.
use vstd::prelude::*;
use crate::model::BankTransaction;

verus! {

/// The transactions of `s` dated on day number `d`, in their order in `s`.
pub open spec fn on_day(s: Seq<BankTransaction>, d: int) -> Seq<BankTransaction>
    decreases s.len(),
{
    if s.len() == 0 {
        Seq::empty()
    } else if s[0].date.num() == d {
        seq![s[0]] + on_day(s.drop_first(), d)
    } else {
        on_day(s.drop_first(), d)
    }
}

/// Whether day number `d` is the earliest date in `s`.
pub open spec fn is_first_day(s: Seq<BankTransaction>, d: int) -> bool {
    &&& exists|i: int| 0 <= i < s.len() && (#[trigger] s[i]).date.num() == d
    &&& forall|i: int| 0 <= i < s.len() ==> d <= (#[trigger] s[i]).date.num()
}

/// Whether day number `d` is the latest date in `s`.
pub open spec fn is_last_day(s: Seq<BankTransaction>, d: int) -> bool {
    &&& exists|i: int| 0 <= i < s.len() && (#[trigger] s[i]).date.num() == d
    &&& forall|i: int| 0 <= i < s.len() ==> (#[trigger] s[i]).date.num() <= d
}

pub open spec fn views(b: Seq<Vec<BankTransaction>>) -> Seq<Seq<BankTransaction>> {
    b.map_values(|v: Vec<BankTransaction>| v@)
}

/// Transactions of consecutive days, from `start_date` to `end_date`.
#[derive(Clone, Debug, PartialEq)]
struct TransactionsHolderWithItems {
    transactions: Vec<Vec<BankTransaction>>,
    start_date: crate::date::Date,
    end_date: crate::date::Date,
}

impl TransactionsHolderWithItems {
    spec fn wf(self) -> bool {
        &&& self.start_date.num() <= self.end_date.num()
        &&& self.transactions@.len() == self.end_date.num() - self.start_date.num() + 1
    }

    spec fn day(self, d: int) -> Seq<BankTransaction> {
        let i = d - self.start_date.num();
        if 0 <= i < self.transactions@.len() {
            self.transactions@[i]@
        } else {
            Seq::empty()
        }
    }
}

#[derive(Clone, Debug, PartialEq)]
enum TransactionHolderVariants {
    Empty,
    WithItems(TransactionsHolderWithItems),
}

/// Bank transactions grouped by day.
#[derive(Debug, PartialEq)]
pub struct TransactionHolder {
    variants: TransactionHolderVariants,
}

impl TransactionHolder {
    #[verifier::type_invariant]
    closed spec fn inv(self) -> bool {
        match self.variants {
            TransactionHolderVariants::Empty => true,
            TransactionHolderVariants::WithItems(h) => h.wf(),
        }
    }

    /// The first and last day numbers covered, or `None` when the holder
    /// covers no day.
    pub closed spec fn span(self) -> Option<(int, int)> {
        match self.variants {
            TransactionHolderVariants::Empty => None,
            TransactionHolderVariants::WithItems(h) => Some(
                (h.start_date.num(), h.end_date.num()),
            ),
        }
    }

    /// The transactions held for day number `d` (none outside the span).
    pub closed spec fn day(self, d: int) -> Seq<BankTransaction> {
        match self.variants {
            TransactionHolderVariants::Empty => Seq::empty(),
            TransactionHolderVariants::WithItems(h) => h.day(d),
        }
    }

    /// The days of the span, in order.
    pub open spec fn days(self) -> Seq<Seq<BankTransaction>> {
        match self.span() {
            None => Seq::empty(),
            Some((s, e)) => Seq::new((e - s + 1) as nat, |i: int| self.day(s + i)),
        }
    }

    /// All held transactions, day after day.
    pub open spec fn items(self) -> Seq<BankTransaction> {
        self.days().flatten()
    }

    /// Whether day number `d` lies in the span.
    pub open spec fn covers(self, d: int) -> bool {
        self.span() matches Some((s, e)) && s <= d <= e
    }

    /// A holder with no transactions.
    pub fn empty() -> (h: Self)
        ensures
            h.span() is None,
            h.items().len() == 0,
    {
        TransactionHolder { variants: TransactionHolderVariants::Empty }
    }

    /// The given transactions grouped by day.
    pub fn new(transactions: Vec<BankTransaction>) -> (h: Self)
        ensures
            transactions@.len() == 0 ==> h.span() is None,
            transactions@.len() > 0 ==> (h.span() matches Some((s, e)) && is_first_day(
                transactions@,
                s,
            ) && is_last_day(transactions@, e)),
            forall|d: int| #[trigger] h.day(d) == on_day(transactions@, d),
    {
        if transactions.len() == 0 {
            proof {
                assert forall|d: int| #[trigger] on_day(transactions@, d) == Seq::<BankTransaction>::empty() by {}
            }
            TransactionHolder { variants: TransactionHolderVariants::Empty }
        } else {
            let ghost orig = transactions@;
            let h = group_bank_transactions(transactions);
            proof {
                assert forall|d: int| #[trigger] h.day(d) == on_day(orig, d) by {
                    if !(h.start_date.num() <= d <= h.end_date.num()) {
                        lemma_on_day_outside(orig, d, h.start_date.num(), h.end_date.num());
                    }
                }
            }
            TransactionHolder { variants: TransactionHolderVariants::WithItems(h) }
        }
    }

    /// The first and last day covered, if the holder covers any.
    pub fn date_range(&self) -> (r: Option<(crate::date::Date, crate::date::Date)>)
        ensures
            r is None <==> self.span() is None,
            r matches Some((a, b)) ==> self.span() == Some((a.num(), b.num())),
    {
        match &self.variants {
            TransactionHolderVariants::Empty => None,
            TransactionHolderVariants::WithItems(h) => Some((h.start_date, h.end_date)),
        }
    }

    /// The transactions of each covered day, first day first.
    pub fn daily_transactions(&self) -> (r: &[Vec<BankTransaction>])
        ensures
            views(r@) == self.days(),
    {
        proof {
            use_type_invariant(self);
        }
        match &self.variants {
            TransactionHolderVariants::Empty => {
                assert(views(Seq::<Vec<BankTransaction>>::empty()) =~= self.days());
                &[]
            },
            TransactionHolderVariants::WithItems(h) => {
                assert(views(h.transactions@) =~= self.days());
                h.transactions.as_slice()
            },
        }
    }

    /// How many transactions the holder has.
    pub fn number_of_transactions(&self) -> (n: usize)
        requires
            self.items().len() <= usize::MAX,
        ensures
            n == self.items().len(),
    {
        match &self.variants {
            TransactionHolderVariants::Empty => 0,
            TransactionHolderVariants::WithItems(h) => {
                proof {
                    use_type_invariant(self);
                    assert(views(h.transactions@) == self.days());
                }
                let ghost b = views(h.transactions@);
                let mut total: usize = 0;
                let mut i: usize = 0;
                proof {
                    b.lemma_flatten_and_flatten_alt_are_equivalent();
                    lemma_flatten_alt_prefix_len(b, b.len() as int);
                }
                while i < h.transactions.len()
                    invariant
                        i <= h.transactions@.len() == b.len(),
                        b == views(h.transactions@),
                        total == b.take(i as int).flatten_alt().len(),
                        b.flatten_alt().len() <= usize::MAX,
                    decreases h.transactions@.len() - i,
                {
                    assert(b.take(i + 1).drop_last() == b.take(i as int));
                    proof {
                        lemma_flatten_alt_prefix_len(b, i + 1);
                    }
                    total = total + h.transactions[i].len();
                    i = i + 1;
                }
                assert(b.take(b.len() as int) == b);
                total
            },
        }
    }

    /// All held transactions, day after day.
    pub fn into_transactions(self) -> (r: Vec<BankTransaction>)
        ensures
            r@ == self.items(),
    {
        proof {
            use_type_invariant(&self);
            if self.variants is WithItems {
                assert(views(self.variants->WithItems_0.transactions@) == self.days());
            }
        }
        match self.variants {
            TransactionHolderVariants::Empty => Vec::new(),
            TransactionHolderVariants::WithItems(h) => {
                let ghost b = views(h.transactions@);
                let mut rest = h.transactions;
                let mut r: Vec<BankTransaction> = Vec::new();
                let ghost n = b.len();
                while rest.len() > 0
                    invariant
                        n == b.len(),
                        rest@.len() <= n,
                        views(rest@) == b.subrange(n - rest@.len(), n as int),
                        r@ == b.take(n - rest@.len()).flatten_alt(),
                    decreases rest@.len(),
                {
                    let ghost k = n - rest@.len();
                    let ghost old_rest = rest@;
                    assert(views(old_rest)[0] == b[k]);
                    let mut first = rest.remove(0);
                    assert(first == old_rest[0]);
                    assert(views(rest@) =~= views(old_rest).drop_first());
                    assert(b.take(k + 1).drop_last() == b.take(k));
                    r.append(&mut first);
                    assert(views(rest@) == b.subrange(n - rest@.len(), n as int));
                }
                proof {
                    assert(b.take(n as int) == b);
                    b.lemma_flatten_and_flatten_alt_are_equivalent();
                }
                r
            },
        }
    }

    /// This holder with `other` laid over it: for every day that `other`
    /// covers, `other`'s transactions replace this holder's.
    pub fn combine(self, other: TransactionHolder) -> (h: Self)
        ensures
            h.span() == combined_span(self.span(), other.span()),
            forall|d: int| #[trigger] h.day(d) == if other.covers(d) {
                other.day(d)
            } else {
                self.day(d)
            },
    {
        proof {
            use_type_invariant(&self);
            use_type_invariant(&other);
        }
        match (self.variants, other.variants) {
            (TransactionHolderVariants::Empty, v) => {
                TransactionHolder { variants: v }
            },
            (v, TransactionHolderVariants::Empty) => {
                TransactionHolder { variants: v }
            },
            (TransactionHolderVariants::WithItems(h1), TransactionHolderVariants::WithItems(h2)) => {
                let h = combine_with_items(h1, h2);
                TransactionHolder { variants: TransactionHolderVariants::WithItems(h) }
            },
        }
    }

    /// The holders combined in order, each laid over the ones before it.
    pub fn combine_vec(holders: Vec<TransactionHolder>) -> (h: Self)
        ensures
            h.span() == fold_span(holders@),
            forall|d: int| #[trigger] h.day(d) == fold_day(holders@, d),
    {
        let mut acc = TransactionHolder::empty();
        let mut rest = holders;
        let ghost all = rest@;
        let ghost n = all.len();
        while rest.len() > 0
            invariant
                rest@.len() <= n == all.len(),
                rest@ == all.subrange(n - rest@.len(), n as int),
                acc.span() == fold_span(all.take(n - rest@.len())),
                forall|d: int| #[trigger] acc.day(d) == fold_day(all.take(n - rest@.len()), d),
            decreases rest@.len(),
        {
            let ghost k = n - rest@.len();
            let next = rest.remove(0);
            assert(all.take(k + 1).drop_last() == all.take(k));
            assert(all.take(k + 1).last() == next);
            acc = acc.combine(next);
        }
        assert(all.take(n as int) == all);
        acc
    }
}

/// The span of `first` combined with `second`.
pub open spec fn combined_span(first: Option<(int, int)>, second: Option<(int, int)>) -> Option<(int, int)> {
    match (first, second) {
        (None, s) => s,
        (f, None) => f,
        (Some((s1, e1)), Some((s2, e2))) => Some(
            (if s1 <= s2 { s1 } else { s2 }, if e1 >= e2 { e1 } else { e2 }),
        ),
    }
}

/// The span of the holders laid over one another in order.
pub open spec fn fold_span(holders: Seq<TransactionHolder>) -> Option<(int, int)>
    decreases holders.len(),
{
    if holders.len() == 0 {
        None
    } else {
        combined_span(fold_span(holders.drop_last()), holders.last().span())
    }
}

/// Day `d` of the holders laid over one another in order: the day of the
/// last holder that covers `d`.
pub open spec fn fold_day(holders: Seq<TransactionHolder>, d: int) -> Seq<BankTransaction>
    decreases holders.len(),
{
    if holders.len() == 0 {
        Seq::empty()
    } else if holders.last().covers(d) {
        holders.last().day(d)
    } else {
        fold_day(holders.drop_last(), d)
    }
}

proof fn lemma_flatten_alt_prefix_len(b: Seq<Seq<BankTransaction>>, i: int)
    requires
        0 <= i <= b.len(),
    ensures
        b.take(i).flatten_alt().len() <= b.flatten_alt().len(),
    decreases b.len() - i,
{
    if i < b.len() {
        lemma_flatten_alt_prefix_len(b, i + 1);
        assert(b.take(i + 1).drop_last() == b.take(i));
    } else {
        assert(b.take(i) == b);
    }
}

proof fn lemma_on_day_outside(s: Seq<BankTransaction>, d: int, lo: int, hi: int)
    requires
        forall|i: int| 0 <= i < s.len() ==> lo <= (#[trigger] s[i]).date.num() <= hi,
        d < lo || d > hi,
    ensures
        on_day(s, d) == Seq::<BankTransaction>::empty(),
    decreases s.len(),
{
    if s.len() > 0 {
        assert(s[0].date.num() != d);
        assert forall|i: int| 0 <= i < s.drop_first().len() implies lo <= (
        #[trigger] s.drop_first()[i]).date.num() <= hi by {
            assert(s.drop_first()[i] == s[i + 1]);
        }
        lemma_on_day_outside(s.drop_first(), d, lo, hi);
    }
}

fn group_bank_transactions(transactions: Vec<BankTransaction>) -> (h: TransactionsHolderWithItems)
    requires
        transactions@.len() > 0,
    ensures
        h.wf(),
        is_first_day(transactions@, h.start_date.num()),
        is_last_day(transactions@, h.end_date.num()),
        forall|i: int| 0 <= i < h.transactions@.len() ==> #[trigger] h.transactions@[i]@ == on_day(
            transactions@,
            h.start_date.num() + i,
        ),
{
    let ghost orig = transactions@;
    let len = transactions.len();
    let mut start_date = transactions[0].date;
    let mut end_date = transactions[0].date;
    let mut i: usize = 1;
    while i < len
        invariant
            1 <= i <= len == orig.len(),
            transactions@ == orig,
            exists|j: int| 0 <= j < i && (#[trigger] orig[j]).date.num() == start_date.num(),
            exists|j: int| 0 <= j < i && (#[trigger] orig[j]).date.num() == end_date.num(),
            forall|j: int| 0 <= j < i ==> start_date.num() <= (#[trigger] orig[j]).date.num() <= end_date.num(),
        decreases len - i,
    {
        let d = transactions[i].date;
        if d.day_number() < start_date.day_number() {
            start_date = d;
        }
        if d.day_number() > end_date.day_number() {
            end_date = d;
        }
        i = i + 1;
    }
    let s = start_date.day_number();
    let e = end_date.day_number();
    let n: usize = (e - s + 1) as usize;
    let mut buckets: Vec<Vec<BankTransaction>> = Vec::new();
    let mut k: usize = 0;
    while k < n
        invariant
            k <= n,
            buckets@.len() == k,
            forall|j: int| 0 <= j < k ==> (#[trigger] buckets@[j])@ == Seq::<BankTransaction>::empty(),
        decreases n - k,
    {
        buckets.push(Vec::new());
        k = k + 1;
    }
    proof {
        assert forall|j: int| 0 <= j < n implies (#[trigger] buckets@[j])@ == on_day(
            orig.subrange(len as int, len as int),
            s + j,
        ) by {
            assert(orig.subrange(len as int, len as int).len() == 0);
        }
    }
    let mut rest = transactions;
    while rest.len() > 0
        invariant
            len == orig.len(),
            rest@.len() <= len,
            rest@ == orig.subrange(0, rest@.len() as int),
            buckets@.len() == n == e - s + 1,
            -100_000_000 <= s <= e <= 100_000_000,
            forall|j: int| 0 <= j < len ==> s <= (#[trigger] orig[j]).date.num() <= e,
            forall|j: int| 0 <= j < n ==> (#[trigger] buckets@[j])@ == on_day(
                orig.subrange(rest@.len() as int, len as int),
                s + j,
            ),
        decreases rest@.len(),
    {
        let ghost k = rest@.len() - 1;
        let t = rest.pop().unwrap();
        assert(t == orig[k]);
        let idx: usize = (t.date.day_number() - s) as usize;
        let ghost old_buckets = buckets@;
        buckets[idx].insert(0, t);
        proof {
            let tail = orig.subrange(k, len as int);
            assert(tail.drop_first() == orig.subrange(k + 1, len as int));
            assert(tail[0] == t);
            assert forall|j: int| 0 <= j < n implies (#[trigger] buckets@[j])@ == on_day(
                tail,
                s + j,
            ) by {
                if j != idx {
                    assert(buckets@[j] == old_buckets[j]);
                }
            }
        }
    }
    assert(orig.subrange(0, len as int) == orig);
    assert(is_first_day(orig, start_date.num()));
    assert(is_last_day(orig, end_date.num()));
    TransactionsHolderWithItems { transactions: buckets, start_date, end_date }
}

/// How many of the offsets `a..=b` lie below `d`.
spec fn below(d: int, a: int, b: int) -> int {
    if d <= a {
        0
    } else if d > b {
        b - a + 1
    } else {
        d - a
    }
}

/// The day at offset `i` once `second` (covering offsets `a2..=b2`) is laid
/// over `first` (covering offsets `a1..=b1`).
spec fn laid_over(
    first: Seq<Seq<BankTransaction>>,
    a1: int,
    b1: int,
    second: Seq<Seq<BankTransaction>>,
    a2: int,
    b2: int,
    i: int,
) -> Seq<BankTransaction> {
    if a2 <= i <= b2 {
        second[i - a2]
    } else if a1 <= i <= b1 {
        first[i - a1]
    } else {
        Seq::empty()
    }
}

fn combine_with_items(h1: TransactionsHolderWithItems, h2: TransactionsHolderWithItems) -> (h:
    TransactionsHolderWithItems)
    requires
        h1.wf(),
        h2.wf(),
    ensures
        h.wf(),
        h.start_date.num() == if h1.start_date.num() <= h2.start_date.num() {
            h1.start_date.num()
        } else {
            h2.start_date.num()
        },
        h.end_date.num() == if h1.end_date.num() >= h2.end_date.num() {
            h1.end_date.num()
        } else {
            h2.end_date.num()
        },
        forall|d: int| #[trigger] h.day(d) == if h2.start_date.num() <= d <= h2.end_date.num() {
            h2.day(d)
        } else {
            h1.day(d)
        },
{
    let s1 = h1.start_date.day_number();
    let e1 = h1.end_date.day_number();
    let s2 = h2.start_date.day_number();
    let e2 = h2.end_date.day_number();
    let start_date = if s1 <= s2 { h1.start_date } else { h2.start_date };
    let end_date = if e1 >= e2 { h1.end_date } else { h2.end_date };
    let s = if s1 <= s2 { s1 } else { s2 };
    let e = if e1 >= e2 { e1 } else { e2 };
    let n: usize = (e - s + 1) as usize;
    let a1 = s1 - s;
    let b1 = e1 - s;
    let a2 = s2 - s;
    let b2 = e2 - s;
    let ghost first = views(h1.transactions@);
    let ghost second = views(h2.transactions@);
    let mut v1 = h1.transactions;
    let mut v2 = h2.transactions;
    let mut result: Vec<Vec<BankTransaction>> = Vec::new();
    let mut d: usize = n;
    while d > 0
        invariant
            d <= n == e - s + 1,
            n <= 200_000_001,
            s <= e,
            a1 == s1 - s,
            0 <= a1 <= b1 < n,
            0 <= a2 <= b2 < n,
            first.len() == b1 - a1 + 1,
            second.len() == b2 - a2 + 1,
            views(v1@) == first.take(below(d as int, a1 as int, b1 as int)),
            views(v2@) == second.take(below(d as int, a2 as int, b2 as int)),
            result@.len() == n - d,
            forall|j: int| 0 <= j < n - d ==> (#[trigger] result@[j])@ == laid_over(
                first,
                a1 as int,
                b1 as int,
                second,
                a2 as int,
                b2 as int,
                d + j,
            ),
        decreases d,
    {
        let idx = (d - 1) as i64;
        let ghost old_result = result@;
        let bucket: Vec<BankTransaction>;
        let ghost old_v1 = v1@;
        let ghost old_v2 = v2@;
        assert(idx == d - 1);
        assert(views(v1@).len() == v1@.len());
        assert(views(v2@).len() == v2@.len());
        assert(below(d as int, a1 as int, b1 as int) <= first.len());
        assert(below(d as int, a2 as int, b2 as int) <= second.len());
        if a2 <= idx && idx <= b2 {
            assert(v2@.len() == idx - a2 + 1);
            assert(views(old_v2)[idx - a2] == old_v2[idx - a2]@);
            bucket = v2.pop().unwrap();
            assert(views(v2@) =~= views(old_v2).drop_last());
            assert(bucket@ == second[idx - a2]);
            assert(views(v2@) == second.take(below(idx as int, a2 as int, b2 as int)));
            if a1 <= idx && idx <= b1 {
                let _ = v1.pop();
                assert(views(v1@) =~= views(old_v1).drop_last());
                assert(views(v1@) == first.take(below(idx as int, a1 as int, b1 as int)));
            } else {
                assert(below(idx as int, a1 as int, b1 as int) == below(d as int, a1 as int, b1 as int));
            }
        } else if a1 <= idx && idx <= b1 {
            assert(v1@.len() == idx - a1 + 1);
            assert(views(old_v1)[idx - a1] == old_v1[idx - a1]@);
            bucket = v1.pop().unwrap();
            assert(views(v1@) =~= views(old_v1).drop_last());
            assert(bucket@ == first[idx - a1]);
            assert(views(v1@) == first.take(below(idx as int, a1 as int, b1 as int)));
            assert(below(idx as int, a2 as int, b2 as int) == below(d as int, a2 as int, b2 as int));
        } else {
            bucket = Vec::new();
            assert(below(idx as int, a1 as int, b1 as int) == below(d as int, a1 as int, b1 as int));
            assert(below(idx as int, a2 as int, b2 as int) == below(d as int, a2 as int, b2 as int));
        }
        result.insert(0, bucket);
        d = d - 1;
        proof {
            assert forall|j: int| 0 <= j < n - d implies (#[trigger] result@[j])@ == laid_over(
                first,
                a1 as int,
                b1 as int,
                second,
                a2 as int,
                b2 as int,
                d + j,
            ) by {
                if j > 0 {
                    assert(result@[j] == old_result[j - 1]);
                }
            }
        }
    }
    let h = TransactionsHolderWithItems { transactions: result, start_date, end_date };
    proof {
        assert forall|dd: int| #[trigger] h.day(dd) == if h2.start_date.num() <= dd <= h2.end_date.num() {
            h2.day(dd)
        } else {
            h1.day(dd)
        } by {
            let i = dd - s;
            if 0 <= i < n {
                assert(h.day(dd) == laid_over(first, a1 as int, b1 as int, second, a2 as int, b2 as int, i));
            }
        }
    }
    h
}

/// How many transactions of `s` are dated between day numbers `lo` and
/// `hi`, both included.
pub open spec fn count_in(s: Seq<BankTransaction>, lo: int, hi: int) -> nat
    decreases s.len(),
{
    if s.len() == 0 {
        0
    } else {
        (if lo <= s[0].date.num() <= hi {
            1nat
        } else {
            0nat
        }) + count_in(s.drop_first(), lo, hi)
    }
}

proof fn lemma_on_day_count(s: Seq<BankTransaction>, d: int)
    ensures
        on_day(s, d).len() == count_in(s, d, d),
    decreases s.len(),
{
    if s.len() > 0 {
        lemma_on_day_count(s.drop_first(), d);
    }
}

proof fn lemma_count_split(s: Seq<BankTransaction>, lo: int, hi: int)
    ensures
        lo <= hi ==> count_in(s, lo, hi) == count_in(s, lo, hi - 1) + count_in(s, hi, hi),
        lo > hi ==> count_in(s, lo, hi) == 0,
    decreases s.len(),
{
    if s.len() > 0 {
        lemma_count_split(s.drop_first(), lo, hi);
    }
}

proof fn lemma_count_all(s: Seq<BankTransaction>, lo: int, hi: int)
    requires
        forall|i: int| 0 <= i < s.len() ==> lo <= (#[trigger] s[i]).date.num() <= hi,
    ensures
        count_in(s, lo, hi) == s.len(),
    decreases s.len(),
{
    if s.len() > 0 {
        assert(lo <= s[0].date.num() <= hi);
        assert forall|i: int| 0 <= i < s.drop_first().len() implies lo <= (
        #[trigger] s.drop_first()[i]).date.num() <= hi by {
            assert(s.drop_first()[i] == s[i + 1]);
        }
        lemma_count_all(s.drop_first(), lo, hi);
    }
}

proof fn lemma_days_prefix(txs: Seq<BankTransaction>, h: TransactionHolder, s: int, e: int, k: int)
    requires
        forall|d: int| #[trigger] h.day(d) == on_day(txs, d),
        h.span() == Some((s, e)),
        0 <= k <= e - s + 1,
    ensures
        h.days().take(k).flatten_alt().len() == count_in(txs, s, s + k - 1),
    decreases k,
{
    let days = h.days();
    if k == 0 {
        lemma_count_split(txs, s, s - 1);
        assert(days.take(0) =~= Seq::<Seq<BankTransaction>>::empty());
    } else {
        lemma_days_prefix(txs, h, s, e, k - 1);
        assert(days.take(k).drop_last() =~= days.take(k - 1));
        assert(days[k - 1] == h.day(s + k - 1));
        lemma_on_day_count(txs, s + k - 1);
        lemma_count_split(txs, s, s + k - 1);
    }
}

/// Grouping keeps every transaction: a holder that groups `txs` by day
/// (as `TransactionHolder::new` gives) holds as many transactions as `txs`.
pub proof fn grouping_keeps_every_transaction(txs: Seq<BankTransaction>, h: TransactionHolder)
    requires
        forall|d: int| #[trigger] h.day(d) == on_day(txs, d),
        txs.len() == 0 ==> h.span() is None,
        txs.len() > 0 ==> (h.span() matches Some((s, e)) && is_first_day(txs, s) && is_last_day(
            txs,
            e,
        )),
    ensures
        h.items().len() == txs.len(),
{
    match h.span() {
        None => {
            assert(h.days() =~= Seq::<Seq<BankTransaction>>::empty());
            h.days().lemma_flatten_and_flatten_alt_are_equivalent();
        },
        Some((s, e)) => {
            let days = h.days();
            assert forall|i: int| 0 <= i < txs.len() implies s <= (#[trigger] txs[i]).date.num()
                <= e by {}
            let n = e - s + 1;
            lemma_days_prefix(txs, h, s, e, n);
            assert(days.take(n) =~= days);
            lemma_count_all(txs, s, e);
            days.lemma_flatten_and_flatten_alt_are_equivalent();
        },
    }
}

} // verus!
