//! Preparing transactions for Lunch Money: category tags, category names
//! resolved to ids, and transactions turned into insert requests.
use vstd::prelude::*;
use crate::lunchmoney::api::{error_text, ApiCall, ApiError, LunchMoneyApi, LunchMoneyError};
use crate::lunchmoney::categories::{
    DefaultLunchMoneyCategoryHierarchyCreationService, LunchMoneyCategoryHierarchyCreationService,
};
use crate::lunchmoney::deletion_service::{
    DefaultLunchMoneyTransactionsDeletionService, LunchMoneyTransactionsDeletionService,
};
use crate::lunchmoney::upload_service::{
    DefaultLunchMoneyTransactionsUploadService, LunchMoneyTransactionsUploadService,
};
use crate::lunchmoney::category_service::{category_entries, category_name_to_id_map, child_entries, is_name_map_of};
use crate::lunchmoney::dto::{CategoryDto, GetTransactionsParams, InsertTransactionDto, ManualAccountDto, TransactionDto};
use crate::lunchmoney::categories::CategoryHierarchyItem;
use crate::model::Transaction;
use crate::name_map::{distinct_names, map_of, pair_views, NameMap};
use crate::tags::TagMap;
use crate::text::{append_str, join, string_views, lex_lt, lemma_lex_total, lemma_lex_transitive, str_lt, push_char};
use crate::money::is_code_shape;
use crate::ids::{uuid_text, uuid_to_string};
use crate::lunchmoney::categories::opt_view;

verus! {

/// Lunch Money API key generated in the Lunch Money app.
#[derive(Clone, Debug)]
pub struct LunchMoneyApiKey(String);

impl View for LunchMoneyApiKey {
    type V = Seq<char>;

    closed spec fn view(&self) -> Seq<char> {
        self.0@
    }
}

impl LunchMoneyApiKey {
    pub fn new(key: String) -> (r: Self)
        ensures
            r@ == key@,
    {
        LunchMoneyApiKey(key)
    }

    pub fn value(&self) -> (r: &str)
        ensures
            r@ == self@,
    {
        self.0.as_str()
    }
}

/// Name of a manual account in Lunch Money.
#[derive(Clone, Debug)]
pub struct LunchMoneyAccountName(String);

impl View for LunchMoneyAccountName {
    type V = Seq<char>;

    closed spec fn view(&self) -> Seq<char> {
        self.0@
    }
}

impl LunchMoneyAccountName {
    pub fn new(name: String) -> (r: Self)
        ensures
            r@ == name@,
    {
        LunchMoneyAccountName(name)
    }

    pub fn value(&self) -> (r: &str)
        ensures
            r@ == self@,
    {
        self.0.as_str()
    }
}

/// Configuration of the Lunch Money sink.
#[derive(Clone, Debug)]
pub struct LunchMoneySinkConfig {
    pub api_key: LunchMoneyApiKey,
    pub account_name: LunchMoneyAccountName,
}

/// Configuration of the setup that replaces the Lunch Money category
/// hierarchy.
#[derive(Clone, Debug)]
pub struct LunchMoneyCategorySetupConfig {
    pub api_key: LunchMoneyApiKey,
    pub categories: Vec<CategoryHierarchyItem>,
}

/// The tag that holds a transaction's Lunch Money category name.
pub open spec fn category_name_key() -> Seq<char> {
    seq![
        'l', 'u', 'n', 'c', 'h', 'm', 'o', 'n', 'e', 'y', '_', 'c', 'a', 't', 'e', 'g', 'o', 'r', 'y',
        '_', 'n', 'a', 'm', 'e'
    ]
}

fn category_name_key_str() -> (r: &'static str)
    ensures
        r@ == category_name_key(),
{
    let k = "lunchmoney_category_name";
    proof {
        reveal_strlit("lunchmoney_category_name");
    }
    k
}

/// The Lunch Money category name a tag map holds, if any.
pub open spec fn category_name_of(tags: Map<Seq<char>, Seq<char>>) -> Option<Seq<char>> {
    if tags.contains_key(category_name_key()) {
        Some(tags[category_name_key()])
    } else {
        None
    }
}

/// The category name that was set is the one read back.
pub proof fn category_name_reads_back(tags: Map<Seq<char>, Seq<char>>, name: Seq<char>)
    ensures
        category_name_of(tags.insert(category_name_key(), name)) == Some(name),
{
}

/// Setting and reading the Lunch Money category of a transaction's tags.
pub trait LunchMoneyTags {
    spec fn tag_view(&self) -> Map<Seq<char>, Seq<char>>;

    /// Sets the category name.
    fn set_category_name(&mut self, category_name: String)
        ensures
            final(self).tag_view() == old(self).tag_view().insert(
                category_name_key(),
                category_name@,
            ),
    ;

    /// The category name, if one is set.
    fn get_category_name(&self) -> (r: Option<&String>)
        ensures
            match r {
                Some(n) => category_name_of(self.tag_view()) == Some(n@),
                None => category_name_of(self.tag_view()) is None,
            },
    ;
}

impl LunchMoneyTags for TagMap {
    open spec fn tag_view(&self) -> Map<Seq<char>, Seq<char>> {
        self@
    }

    fn set_category_name(&mut self, category_name: String) {
        self.insert(category_name_key_str().to_string(), category_name);
    }

    fn get_category_name(&self) -> (r: Option<&String>) {
        self.get(category_name_key_str())
    }
}


/// Whether the names are in strictly increasing order.
pub open spec fn strictly_sorted(v: Seq<Seq<char>>) -> bool {
    forall|i: int, j: int| 0 <= i < j < v.len() ==> lex_lt(#[trigger] v[i], #[trigger] v[j])
}

/// Whether `id` is the id of the first of `accounts` called `name`.
pub open spec fn first_account_id(accounts: Seq<ManualAccountDto>, name: Seq<char>, id: i64) -> bool {
    exists|i: int|
        0 <= i < accounts.len() && #[trigger] accounts[i].name@ == name && accounts[i].id == id
            && forall|j: int| 0 <= j < i ==> accounts[j].name@ != name
}

/// Whether none of `accounts` is called `name`.
pub open spec fn no_account_named(accounts: Seq<ManualAccountDto>, name: Seq<char>) -> bool {
    forall|i: int| 0 <= i < accounts.len() ==> (#[trigger] accounts[i]).name@ != name
}

/// Whether `r` is what looking up the account `name` gives for `answer`,
/// an answer of `GET /manual_accounts`: the id of the first account of that
/// name, `AccountNotFound` when there is none, and the failed call in `Api`.
pub open spec fn account_lookup(
    answer: Result<Vec<ManualAccountDto>, ApiError>,
    name: Seq<char>,
    r: Result<i64, LunchMoneySinkError>,
) -> bool {
    match answer {
        Err(cause) => r matches Err(
            LunchMoneySinkError::Api(LunchMoneyError::Api { context, cause: c }),
        ) && context@ == "Failed to retrieve Lunch Money manual accounts"@ && c == cause,
        Ok(accounts) => match r {
            Ok(id) => first_account_id(accounts@, name, id),
            Err(LunchMoneySinkError::AccountNotFound(_)) => no_account_named(accounts@, name),
            _ => false,
        },
    }
}

/// Whether `n` is one of `v`.
pub open spec fn has_name(v: Seq<Seq<char>>, n: Seq<char>) -> bool {
    exists|i: int| 0 <= i < v.len() && #[trigger] v[i] == n
}

fn insert_sorted(v: &mut Vec<String>, s: String)
    requires
        strictly_sorted(string_views(old(v)@)),
    ensures
        strictly_sorted(string_views(final(v)@)),
        forall|n: Seq<char>| #[trigger] has_name(string_views(final(v)@), n) <==> (has_name(
            string_views(old(v)@),
            n,
        ) || n == s@),
{
    let ghost old_views = string_views(v@);
    let mut p: usize = 0;
    while p < v.len() && str_lt(v[p].as_str(), s.as_str())
        invariant
            p <= v@.len(),
            old_views == string_views(v@),
            forall|i: int| 0 <= i < p ==> lex_lt(#[trigger] old_views[i], s@),
        decreases v@.len() - p,
    {
        p = p + 1;
    }
    if p < v.len() && crate::text::str_eq(v[p].as_str(), s.as_str()) {
        assert(old_views[p as int] == s@);
        return;
    }
    let ghost sv = s@;
    v.insert(p, s);
    proof {
        let nv = string_views(v@);
        assert(nv =~= old_views.insert(p as int, sv));
        if p < old_views.len() {
            lemma_lex_total(old_views[p as int], sv);
        }
        assert forall|i: int, j: int| 0 <= i < j < nv.len() implies lex_lt(
            #[trigger] nv[i],
            #[trigger] nv[j],
        ) by {
            if i < p && j == p {
            } else if i < p && j > p {
                if j - 1 > p {
                    lemma_lex_transitive(sv, old_views[p as int], old_views[j - 1]);
                }
                assert(nv[j] == old_views[j - 1]);
                lemma_lex_transitive(nv[i], sv, nv[j]);
            } else if i == p && j > p {
                if j - 1 > p {
                    lemma_lex_transitive(sv, old_views[p as int], old_views[j - 1]);
                }
            } else if i > p {
                assert(nv[i] == old_views[i - 1] && nv[j] == old_views[j - 1]);
            }
        }
        assert forall|n: Seq<char>| #[trigger] has_name(nv, n) <==> (has_name(old_views, n) || n
            == sv) by {
            if has_name(old_views, n) {
                let k = choose|k: int| 0 <= k < old_views.len() && old_views[k] == n;
                if k < p {
                    assert(nv[k] == n);
                } else {
                    assert(nv[k + 1] == n);
                }
            }
            if n == sv {
                assert(nv[p as int] == n);
            }
            if has_name(nv, n) {
                let k = choose|k: int| 0 <= k < nv.len() && nv[k] == n;
                if k < p {
                    assert(old_views[k] == n);
                } else if k > p {
                    assert(old_views[k - 1] == n);
                }
            }
        }
    }
}

/// The distinct Lunch Money category names of the transactions, in
/// increasing order.
pub fn get_all_transaction_category_names(transactions: &[Transaction]) -> (r: Vec<String>)
    ensures
        strictly_sorted(string_views(r@)),
        forall|n: Seq<char>| #[trigger] has_name(string_views(r@), n) <==> exists|i: int|
            0 <= i < transactions@.len() && category_name_of(#[trigger] transactions@[i].tags@)
                == Some(n),
{
    let mut r: Vec<String> = Vec::new();
    let mut i: usize = 0;
    while i < transactions.len()
        invariant
            i <= transactions@.len(),
            strictly_sorted(string_views(r@)),
            forall|n: Seq<char>| #[trigger] has_name(string_views(r@), n) <==> exists|k: int|
                0 <= k < i && category_name_of(#[trigger] transactions@[k].tags@) == Some(n),
        decreases transactions@.len() - i,
    {
        let ghost before = string_views(r@);
        match transactions[i].tags.get_category_name() {
            Some(name) => {
                insert_sorted(&mut r, name.clone());
            },
            None => {},
        }
        proof {
            assert forall|n: Seq<char>| #[trigger] has_name(string_views(r@), n) <==> exists|k: int|
                0 <= k < i + 1 && category_name_of(#[trigger] transactions@[k].tags@) == Some(n) by {
                if category_name_of(transactions@[i as int].tags@) == Some(n) {
                    assert(0 <= i < i + 1);
                }
                if exists|k: int| 0 <= k < i + 1 && category_name_of(#[trigger] transactions@[k].tags@) == Some(n) {
                    let k = choose|k: int| 0 <= k < i + 1 && category_name_of(#[trigger] transactions@[k].tags@) == Some(n);
                    if k < i {
                        assert(has_name(before, n));
                    }
                }
            }
        }
        i = i + 1;
    }
    r
}

/// Category ids by name: categories that transactions can use, and
/// category groups, which they cannot.
#[derive(Clone, Debug, PartialEq)]
pub struct CategoryNameToIdMaps {
    pub assignable: NameMap,
    pub non_assignable: NameMap,
}

/// Why category names could not be resolved to ids.
#[derive(Clone, Debug, PartialEq)]
pub enum CategoryMappingError {
    /// These names are category groups, which transactions cannot use.
    NonAssignable(Vec<String>),
    /// These names are no category at all.
    Unknown(Vec<String>),
}

/// Each name in single quotes.
pub open spec fn quoted_names(names: Seq<Seq<char>>) -> Seq<Seq<char>> {
    names.map_values(|n: Seq<char>| "'"@ + n + "'"@)
}

/// `names` joined with `, `, each transformed by `quote` first when asked.
fn join_names(names: &[String], quote: bool) -> (r: String)
    ensures
        r@ == join(if quote { quoted_names(string_views(names@)) } else { string_views(names@) }, ", "@),
{
    let ghost all = if quote { quoted_names(string_views(names@)) } else { string_views(names@) };
    let mut r = String::new();
    let mut i: usize = 0;
    while i < names.len()
        invariant
            i <= names@.len() == all.len(),
            all == if quote { quoted_names(string_views(names@)) } else { string_views(names@) },
            r@ == join(all.take(i as int), ", "@),
        decreases names@.len() - i,
    {
        let ghost before = r@;
        if i > 0 {
            append_str(&mut r, ", ");
        }
        if quote {
            append_str(&mut r, "'");
            append_str(&mut r, names[i].as_str());
            append_str(&mut r, "'");
        } else {
            append_str(&mut r, names[i].as_str());
        }
        proof {
            assert(all.take(i + 1).drop_last() =~= all.take(i as int));
            assert(all[i as int] == if quote { "'"@ + names@[i as int]@ + "'"@ } else { names@[i as int]@ });
            if i > 0 {
                assert(r@ =~= before + ", "@ + all[i as int]);
            } else {
                assert(all.take(1) =~= seq![all[0]]);
                assert(r@ =~= all[0]);
            }
        }
        i = i + 1;
    }
    assert(all.take(names@.len() as int) =~= all);
    r
}

impl CategoryMappingError {
    /// A sentence that says which names cannot be used.
    pub fn message(&self) -> (m: String)
        ensures
            m@ == match self {
                CategoryMappingError::NonAssignable(v) => "Lunch Money category "@ + join(
                    quoted_names(string_views(v@)),
                    ", "@,
                ) + " is a category group and cannot be used as transaction category. Use child categories instead."@,
                CategoryMappingError::Unknown(v) => "Unknown Lunch Money category names in transactions: "@
                    + join(string_views(v@), ", "@),
            },
    {
        match self {
            CategoryMappingError::NonAssignable(v) => {
                let mut m = "Lunch Money category ".to_string();
                let names = join_names(v.as_slice(), true);
                append_str(&mut m, names.as_str());
                append_str(
                    &mut m,
                    " is a category group and cannot be used as transaction category. Use child categories instead.",
                );
                m
            },
            CategoryMappingError::Unknown(v) => {
                let mut m = "Unknown Lunch Money category names in transactions: ".to_string();
                let names = join_names(v.as_slice(), false);
                append_str(&mut m, names.as_str());
                m
            },
        }
    }
}

/// The names of `names` that `m` holds, in order.
pub open spec fn names_in(names: Seq<Seq<char>>, m: Map<Seq<char>, i64>) -> Seq<Seq<char>>
    decreases names.len(),
{
    if names.len() == 0 {
        Seq::empty()
    } else if m.contains_key(names.last()) {
        names_in(names.drop_last(), m).push(names.last())
    } else {
        names_in(names.drop_last(), m)
    }
}

/// The names of `names` that neither map holds, in order.
pub open spec fn names_in_neither(
    names: Seq<Seq<char>>,
    a: Map<Seq<char>, i64>,
    b: Map<Seq<char>, i64>,
) -> Seq<Seq<char>>
    decreases names.len(),
{
    if names.len() == 0 {
        Seq::empty()
    } else if !a.contains_key(names.last()) && !b.contains_key(names.last()) {
        names_in_neither(names.drop_last(), a, b).push(names.last())
    } else {
        names_in_neither(names.drop_last(), a, b)
    }
}

/// The ids of the category names: an error naming the category groups
/// among them if there are any, else one naming the unknown names if there
/// are any, else the ids.
pub fn map_category_names_to_ids(
    category_names: &[String],
    category_name_to_id_maps: &CategoryNameToIdMaps,
) -> (r: Result<NameMap, CategoryMappingError>)
    ensures
        ({
            let names = string_views(category_names@);
            let groups = names_in(names, category_name_to_id_maps.non_assignable@);
            let unknown = names_in_neither(
                names,
                category_name_to_id_maps.assignable@,
                category_name_to_id_maps.non_assignable@,
            );
            match r {
                Err(CategoryMappingError::NonAssignable(v)) => groups.len() > 0 && string_views(v@)
                    == groups,
                Err(CategoryMappingError::Unknown(v)) => groups.len() == 0 && unknown.len() > 0
                    && string_views(v@) == unknown,
                Ok(m) => groups.len() == 0 && unknown.len() == 0 && m@
                    == category_name_to_id_maps.assignable@.restrict(names.to_set()),
            }
        }),
{
    let ghost names = string_views(category_names@);
    let ghost assignable = category_name_to_id_maps.assignable@;
    let ghost groups_map = category_name_to_id_maps.non_assignable@;
    let mut groups: Vec<String> = Vec::new();
    let mut unknown: Vec<String> = Vec::new();
    let mut ids = NameMap::new();
    let mut i: usize = 0;
    while i < category_names.len()
        invariant
            i <= category_names@.len(),
            names == string_views(category_names@),
            assignable == category_name_to_id_maps.assignable@,
            groups_map == category_name_to_id_maps.non_assignable@,
            string_views(groups@) == names_in(names.take(i as int), groups_map),
            string_views(unknown@) == names_in_neither(names.take(i as int), assignable, groups_map),
            ids@ == assignable.restrict(names.take(i as int).to_set()),
        decreases category_names@.len() - i,
    {
        let name = &category_names[i];
        let ghost prefix = names.take(i as int);
        assert(names.take(i + 1).drop_last() == prefix);
        assert(names.take(i + 1).last() == name@);
        assert(names.take(i + 1).to_set() =~= prefix.to_set().insert(name@));
        let ghost g0 = groups@;
        let ghost u0 = unknown@;
        if category_name_to_id_maps.non_assignable.contains_key(name.as_str()) {
            groups.push(name.clone());
            assert(string_views(groups@) =~= string_views(g0).push(name@));
        } else if !category_name_to_id_maps.assignable.contains_key(name.as_str()) {
            unknown.push(name.clone());
            assert(string_views(unknown@) =~= string_views(u0).push(name@));
        }
        match category_name_to_id_maps.assignable.get(name.as_str()) {
            Some(id) => {
                ids.insert(name.clone(), id);
                assert(ids@ =~= assignable.restrict(names.take(i + 1).to_set()));
            },
            None => {
                assert(ids@ =~= assignable.restrict(names.take(i + 1).to_set()));
            },
        }
        i = i + 1;
    }
    assert(names.take(category_names@.len() as int) == names);
    if groups.len() > 0 {
        return Err(CategoryMappingError::NonAssignable(groups));
    }
    if unknown.len() > 0 {
        return Err(CategoryMappingError::Unknown(unknown));
    }
    Ok(ids)
}

/// The id of the first manual account called `account_name`.
pub fn find_account_id(manual_accounts: &[ManualAccountDto], account_name: &str) -> (r: Option<i64>)
    ensures
        match r {
            Some(id) => exists|i: int|
                0 <= i < manual_accounts@.len() && #[trigger] manual_accounts@[i].name@
                    == account_name@ && manual_accounts@[i].id == id && forall|j: int|
                    0 <= j < i ==> manual_accounts@[j].name@ != account_name@,
            None => forall|i: int|
                0 <= i < manual_accounts@.len() ==> (#[trigger] manual_accounts@[i]).name@
                    != account_name@,
        },
{
    let mut i: usize = 0;
    while i < manual_accounts.len()
        invariant
            i <= manual_accounts@.len(),
            forall|j: int| 0 <= j < i ==> (#[trigger] manual_accounts@[j]).name@ != account_name@,
        decreases manual_accounts@.len() - i,
    {
        if crate::text::str_eq(manual_accounts[i].name.as_str(), account_name) {
            assert(manual_accounts@[i as int].name@ == account_name@);
            return Some(manual_accounts[i].id);
        }
        i = i + 1;
    }
    None
}

/// A transaction's category name that has no Lunch Money category id.
#[derive(Clone, Debug, PartialEq)]
pub struct MissingCategory {
    pub category_name: String,
    pub transaction_id: u128,
}

/// The lower-case form of an upper-case ASCII letter.
pub open spec fn ascii_lower(c: char) -> char {
    ((c as u32) + 32) as char
}

/// The lower-case form of a currency code.
pub fn lowercase_code(code: &str) -> (s: String)
    requires
        is_code_shape(code@),
    ensures
        s@ == code@.map_values(|c: char| ascii_lower(c)),
{
    let v = crate::text::chars_of(code);
    let mut s = String::new();
    let mut i: usize = 0;
    while i < v.len()
        invariant
            i <= v@.len(),
            v@ == code@,
            is_code_shape(code@),
            s@ == code@.take(i as int).map_values(|c: char| ascii_lower(c)),
        decreases v@.len() - i,
    {
        let c = v[i];
        assert('A' <= code@[i as int] <= 'Z');
        let lower = ((c as u8) + 32) as char;
        assert(lower == ascii_lower(c)) by {
            assert(c as u32 == c as u8);
        }
        push_char(&mut s, lower);
        assert(code@.take(i + 1).map_values(|c: char| ascii_lower(c)) =~= code@.take(i as int).map_values(|c: char| ascii_lower(c)).push(lower));
        i = i + 1;
    }
    assert(code@.take(v@.len() as int) == code@);
    s
}

/// Whether `transaction` has a category tag whose name has no id.
pub open spec fn category_missing(transaction: Transaction, ids: Map<Seq<char>, i64>) -> bool {
    match category_name_of(transaction.tags@) {
        Some(name) => !ids.contains_key(name),
        None => false,
    }
}

/// Whether `dto` is the Lunch Money insert request for `transaction` in
/// the manual account `account_id`: the amount with the opposite sign, the
/// currency code in lower case, the description as notes, the counterparty
/// as payee, the UUID as external id and the id of its category, if any.
pub open spec fn is_insert_request(
    dto: InsertTransactionDto,
    transaction: Transaction,
    account_id: i64,
    ids: Map<Seq<char>, i64>,
) -> bool {
    &&& dto.date == transaction.date
    &&& dto.amount == transaction.amount.spec_amount().negation()
    &&& opt_view(dto.currency) == Some(
        transaction.amount.spec_currency().spec_code().map_values(|c: char| ascii_lower(c)),
    )
    &&& dto.category_id == match category_name_of(transaction.tags@) {
        Some(name) => Some(ids[name]),
        None => None::<i64>,
    }
    &&& opt_view(dto.notes) == Some(transaction.description@)
    &&& opt_view(dto.payee) == Some(transaction.counterparty@)
    &&& dto.manual_account_id == Some(account_id)
    &&& opt_view(dto.external_id) == Some(uuid_text(transaction.id))
}

/// The Lunch Money insert request for `transaction` in the manual account
/// `account_id`, or the missing category when its category tag names a
/// category without an id.
pub fn to_insert_transaction(
    transaction: &Transaction,
    account_id: i64,
    category_name_to_id: &NameMap,
) -> (r: Result<InsertTransactionDto, MissingCategory>)
    ensures
        category_missing(*transaction, category_name_to_id@) ==> (r matches Err(e)
            && Some(e.category_name@) == category_name_of(transaction.tags@)
            && e.transaction_id == transaction.id),
        !category_missing(*transaction, category_name_to_id@) ==> (r matches Ok(dto)
            && is_insert_request(dto, *transaction, account_id, category_name_to_id@)),
{
    let category_id = match transaction.tags.get_category_name() {
        Some(name) => match category_name_to_id.get(name.as_str()) {
            Some(id) => Some(id),
            None => {
                return Err(MissingCategory { category_name: name.clone(), transaction_id: transaction.id });
            },
        },
        None => None,
    };
    let amount = transaction.amount.amount();
    Ok(InsertTransactionDto {
        date: transaction.date,
        amount: amount.negated(),
        currency: Some(lowercase_code(transaction.amount.currency().code())),
        payee: Some(transaction.counterparty.clone()),
        category_id,
        notes: Some(transaction.description.clone()),
        manual_account_id: Some(account_id),
        external_id: Some(uuid_to_string(transaction.id)),
    })
}

/// The insert requests for `transactions`, in order, in the manual account
/// `account_id`; fails on the first transaction whose category has no id.
pub fn insert_requests_for(
    transactions: &[Transaction],
    account_id: i64,
    ids: &NameMap,
) -> (r: Result<Vec<InsertTransactionDto>, MissingCategory>)
    ensures
        match r {
            Ok(v) => {
                &&& v@.len() == transactions@.len()
                &&& forall|i: int|
                    0 <= i < v@.len() ==> is_insert_request(
                        #[trigger] v@[i],
                        transactions@[i],
                        account_id,
                        ids@,
                    )
                &&& forall|i: int|
                    0 <= i < transactions@.len() ==> !category_missing(
                        #[trigger] transactions@[i],
                        ids@,
                    )
            },
            Err(e) => exists|i: int|
                {
                    &&& 0 <= i < transactions@.len()
                    &&& category_missing(#[trigger] transactions@[i], ids@)
                    &&& forall|j: int|
                        0 <= j < i ==> !category_missing(#[trigger] transactions@[j], ids@)
                    &&& Some(e.category_name@) == category_name_of(transactions@[i].tags@)
                    &&& e.transaction_id == transactions@[i].id
                },
        },
{
    let mut inserts: Vec<InsertTransactionDto> = Vec::new();
    let mut i: usize = 0;
    while i < transactions.len()
        invariant
            i <= transactions@.len(),
            inserts@.len() == i,
            forall|k: int|
                0 <= k < i ==> is_insert_request(
                    #[trigger] inserts@[k],
                    transactions@[k],
                    account_id,
                    ids@,
                ),
            forall|k: int| 0 <= k < i ==> !category_missing(#[trigger] transactions@[k], ids@),
        decreases transactions@.len() - i,
    {
        match to_insert_transaction(&transactions[i], account_id, ids) {
            Ok(dto) => inserts.push(dto),
            Err(missing) => {
                assert(category_missing(transactions@[i as int], ids@));
                return Err(missing);
            },
        }
        i = i + 1;
    }
    Ok(inserts)
}

/// Every name in `names` that `names_in` leaves out is not in `m`.
proof fn lemma_names_in_empty(names: Seq<Seq<char>>, m: Map<Seq<char>, i64>, k: int)
    requires
        names_in(names, m).len() == 0,
        0 <= k < names.len(),
    ensures
        !m.contains_key(names[k]),
    decreases names.len(),
{
    if m.contains_key(names.last()) {
        assert(names_in(names, m).len() > 0);
    } else if k < names.len() - 1 {
        assert(names.drop_last()[k] == names[k]);
        lemma_names_in_empty(names.drop_last(), m, k);
    }
}

/// Every name in `names` is in one of the maps when `names_in_neither`
/// finds none.
proof fn lemma_names_in_neither_empty(
    names: Seq<Seq<char>>,
    a: Map<Seq<char>, i64>,
    b: Map<Seq<char>, i64>,
    k: int,
)
    requires
        names_in_neither(names, a, b).len() == 0,
        0 <= k < names.len(),
    ensures
        a.contains_key(names[k]) || b.contains_key(names[k]),
    decreases names.len(),
{
    if !a.contains_key(names.last()) && !b.contains_key(names.last()) {
        assert(names_in_neither(names, a, b).len() > 0);
    } else if k < names.len() - 1 {
        assert(names.drop_last()[k] == names[k]);
        lemma_names_in_neither_empty(names.drop_last(), a, b, k);
    }
}

/// Each name `names_in` keeps is one of `names`.
proof fn lemma_names_in_from(names: Seq<Seq<char>>, m: Map<Seq<char>, i64>, k: int)
    requires
        0 <= k < names_in(names, m).len(),
    ensures
        has_name(names, names_in(names, m)[k]),
    decreases names.len(),
{
    let rest = names_in(names.drop_last(), m);
    if m.contains_key(names.last()) && k == rest.len() {
        assert(names[names.len() - 1] == names.last());
    } else {
        lemma_names_in_from(names.drop_last(), m, k);
        let j = choose|j: int| 0 <= j < names.drop_last().len() && names.drop_last()[j] == rest[k];
        assert(names[j] == rest[k]);
    }
}

/// Each name `names_in_neither` keeps is one of `names`.
proof fn lemma_names_in_neither_from(
    names: Seq<Seq<char>>,
    a: Map<Seq<char>, i64>,
    b: Map<Seq<char>, i64>,
    k: int,
)
    requires
        0 <= k < names_in_neither(names, a, b).len(),
    ensures
        has_name(names, names_in_neither(names, a, b)[k]),
    decreases names.len(),
{
    let rest = names_in_neither(names.drop_last(), a, b);
    if !a.contains_key(names.last()) && !b.contains_key(names.last()) && k == rest.len() {
        assert(names[names.len() - 1] == names.last());
    } else {
        lemma_names_in_neither_from(names.drop_last(), a, b, k);
        let j = choose|j: int| 0 <= j < names.drop_last().len() && names.drop_last()[j] == rest[k];
        assert(names[j] == rest[k]);
    }
}

/// Whether `name` is the category of one of `transactions`.
pub open spec fn is_category_of(name: Seq<char>, transactions: Seq<Transaction>) -> bool {
    exists|i: int|
        0 <= i < transactions.len() && category_name_of(#[trigger] transactions[i].tags@) =~= Some(
            name,
        )
}

/// Whether each of `names` is the category of one of `transactions`.
pub open spec fn all_categories_of(names: Seq<Seq<char>>, transactions: Seq<Transaction>) -> bool {
    forall|k: int| 0 <= k < names.len() ==> is_category_of(#[trigger] names[k], transactions)
}

/// Names taken from the category names of `transactions` are categories
/// of `transactions`.
proof fn lemma_listed_names_are_categories(
    names: Seq<Seq<char>>,
    transactions: Seq<Transaction>,
    listed: Seq<Seq<char>>,
)
    requires
        forall|n: Seq<char>| #[trigger] has_name(names, n) <==> exists|i: int|
            0 <= i < transactions.len() && category_name_of(#[trigger] transactions[i].tags@)
                == Some(n),
        forall|k: int| 0 <= k < listed.len() ==> has_name(names, #[trigger] listed[k]),
    ensures
        all_categories_of(listed, transactions),
{
    assert forall|k: int| 0 <= k < listed.len() implies is_category_of(
        #[trigger] listed[k],
        transactions,
    ) by {
        assert(has_name(names, listed[k]));
    }
}

/// The names a category mapping error lists.
pub open spec fn mapping_error_names(e: CategoryMappingError) -> Seq<Seq<char>> {
    match e {
        CategoryMappingError::NonAssignable(v) => string_views(v@),
        CategoryMappingError::Unknown(v) => string_views(v@),
    }
}

/// When the category names of the transactions are neither groups nor
/// unknown, the ids they map to leave no transaction without its category:
/// the mapping catches every missing category before the upload does.
pub proof fn mapped_categories_cover_every_transaction(
    transactions: Seq<Transaction>,
    names: Seq<Seq<char>>,
    assignable: Map<Seq<char>, i64>,
    non_assignable: Map<Seq<char>, i64>,
)
    requires
        forall|n: Seq<char>| #[trigger] has_name(names, n) <==> exists|i: int|
            0 <= i < transactions.len() && category_name_of(#[trigger] transactions[i].tags@)
                == Some(n),
        names_in(names, non_assignable).len() == 0,
        names_in_neither(names, assignable, non_assignable).len() == 0,
    ensures
        forall|i: int|
            0 <= i < transactions.len() ==> !category_missing(
                #[trigger] transactions[i],
                assignable.restrict(names.to_set()),
            ),
{
    assert forall|i: int| 0 <= i < transactions.len() implies !category_missing(
        #[trigger] transactions[i],
        assignable.restrict(names.to_set()),
    ) by {
        if let Some(n) = category_name_of(transactions[i].tags@) {
            assert(has_name(names, n));
            let k = choose|k: int| 0 <= k < names.len() && names[k] == n;
            lemma_names_in_empty(names, non_assignable, k);
            lemma_names_in_neither_empty(names, assignable, non_assignable, k);
            assert(names.to_set().contains(n));
        }
    }
}

/// The names and ids of the categories that are no group, and of all
/// children: the categories transactions can use.
pub open spec fn assignable_entries(categories: Seq<CategoryDto>) -> Seq<(Seq<char>, i64)>
    decreases categories.len(),
{
    if categories.len() == 0 {
        Seq::empty()
    } else {
        let c = categories.last();
        assignable_entries(categories.drop_last()) + (if c.is_group {
            Seq::empty()
        } else {
            seq![(c.name@, c.id)]
        }) + child_entries(c.children@)
    }
}

/// The names and ids of the top-level categories that are groups.
pub open spec fn group_entries(categories: Seq<CategoryDto>) -> Seq<(Seq<char>, i64)>
    decreases categories.len(),
{
    if categories.len() == 0 {
        Seq::empty()
    } else {
        let c = categories.last();
        group_entries(categories.drop_last()) + if c.is_group {
            seq![(c.name@, c.id)]
        } else {
            Seq::empty()
        }
    }
}

/// Whether the pair `p` is one of `s`.
spec fn has_pair(s: Seq<(Seq<char>, i64)>, p: (Seq<char>, i64)) -> bool {
    exists|k: int| 0 <= k < s.len() && s[k] == p
}

/// Each pair of `assignable_entries` is a pair of `category_entries`.
proof fn lemma_assignable_in_entries(categories: Seq<CategoryDto>, k: int)
    requires
        0 <= k < assignable_entries(categories).len(),
    ensures
        has_pair(category_entries(categories), assignable_entries(categories)[k]),
    decreases categories.len(),
{
    let init = categories.drop_last();
    let c = categories.last();
    let a0 = assignable_entries(init);
    let own = if c.is_group {
        Seq::<(Seq<char>, i64)>::empty()
    } else {
        seq![(c.name@, c.id)]
    };
    let ch = child_entries(c.children@);
    let e0 = category_entries(init);
    let a = assignable_entries(categories);
    let e = category_entries(categories);
    assert(a == a0 + own + ch);
    assert(e == e0 + seq![(c.name@, c.id)] + ch);
    if k < a0.len() {
        lemma_assignable_in_entries(init, k);
        let m = choose|m: int| 0 <= m < e0.len() && e0[m] == a0[k];
        assert(e[m] == a[k]);
    } else if k < a0.len() + own.len() {
        assert(e[e0.len() as int] == a[k]);
    } else {
        let j = k - a0.len() - own.len();
        assert(a[k] == ch[j]);
        assert(e[e0.len() + 1 + j] == ch[j]);
    }
}

/// Each pair of `group_entries` is a pair of `category_entries`.
proof fn lemma_groups_in_entries(categories: Seq<CategoryDto>, k: int)
    requires
        0 <= k < group_entries(categories).len(),
    ensures
        has_pair(category_entries(categories), group_entries(categories)[k]),
    decreases categories.len(),
{
    let init = categories.drop_last();
    let c = categories.last();
    let g0 = group_entries(init);
    let e0 = category_entries(init);
    let e = category_entries(categories);
    assert(e == e0 + seq![(c.name@, c.id)] + child_entries(c.children@));
    if k < g0.len() {
        lemma_groups_in_entries(init, k);
        let m = choose|m: int| 0 <= m < e0.len() && e0[m] == g0[k];
        assert(e[m] == g0[k]);
    } else {
        assert(e[e0.len() as int] == group_entries(categories)[k]);
    }
}

/// The children of category `i`, and the category itself, are pairs of
/// `category_entries`; they are pairs of `assignable_entries` too, but for
/// a group, which is a pair of `group_entries`.
proof fn lemma_category_pairs(categories: Seq<CategoryDto>, i: int)
    requires
        0 <= i < categories.len(),
    ensures
        forall|j: int|
            #![trigger categories[i].children@[j]]
            0 <= j < categories[i].children@.len() ==> has_pair(
                assignable_entries(categories),
                (categories[i].children@[j].name@, categories[i].children@[j].id),
            ) && has_pair(
                category_entries(categories),
                (categories[i].children@[j].name@, categories[i].children@[j].id),
            ),
        has_pair(category_entries(categories), (categories[i].name@, categories[i].id)),
        !categories[i].is_group ==> has_pair(
            assignable_entries(categories),
            (categories[i].name@, categories[i].id),
        ),
        categories[i].is_group ==> has_pair(
            group_entries(categories),
            (categories[i].name@, categories[i].id),
        ),
    decreases categories.len(),
{
    let init = categories.drop_last();
    let c = categories.last();
    let a0 = assignable_entries(init);
    let own = if c.is_group {
        Seq::<(Seq<char>, i64)>::empty()
    } else {
        seq![(c.name@, c.id)]
    };
    let ch = child_entries(c.children@);
    let e0 = category_entries(init);
    let g0 = group_entries(init);
    let a = assignable_entries(categories);
    let e = category_entries(categories);
    let g = group_entries(categories);
    assert(a == a0 + own + ch);
    assert(e == e0 + seq![(c.name@, c.id)] + ch);
    if i == categories.len() - 1 {
        assert forall|j: int|
            #![trigger categories[i].children@[j]]
            0 <= j < categories[i].children@.len() implies has_pair(
                a,
                (categories[i].children@[j].name@, categories[i].children@[j].id),
            ) && has_pair(e, (categories[i].children@[j].name@, categories[i].children@[j].id)) by {
            assert(a[a0.len() + own.len() + j] == ch[j]);
            assert(e[e0.len() + 1 + j] == ch[j]);
        }
        assert(e[e0.len() as int] == (c.name@, c.id));
        if !c.is_group {
            assert(a[a0.len() as int] == (c.name@, c.id));
        } else {
            assert(g == g0 + seq![(c.name@, c.id)]);
            assert(g[g0.len() as int] == (c.name@, c.id));
        }
    } else {
        lemma_category_pairs(init, i);
        assert(init[i] == categories[i]);
        assert forall|j: int|
            #![trigger categories[i].children@[j]]
            0 <= j < categories[i].children@.len() implies has_pair(
                a,
                (categories[i].children@[j].name@, categories[i].children@[j].id),
            ) && has_pair(e, (categories[i].children@[j].name@, categories[i].children@[j].id)) by {
            let p = (categories[i].children@[j].name@, categories[i].children@[j].id);
            assert(init[i].children@[j] == categories[i].children@[j]);
            let k = choose|k: int| 0 <= k < a0.len() && a0[k] == p;
            assert(a[k] == p);
            let m = choose|m: int| 0 <= m < e0.len() && e0[m] == p;
            assert(e[m] == p);
        }
        let q = (categories[i].name@, categories[i].id);
        let m = choose|m: int| 0 <= m < e0.len() && e0[m] == q;
        assert(e[m] == q);
        if !categories[i].is_group {
            let k = choose|k: int| 0 <= k < a0.len() && a0[k] == q;
            assert(a[k] == q);
        } else {
            assert(g == g0 + if c.is_group {
                seq![(c.name@, c.id)]
            } else {
                Seq::<(Seq<char>, i64)>::empty()
            });
            let k = choose|k: int| 0 <= k < g0.len() && g0[k] == q;
            assert(g[k] == q);
        }
    }
}

/// A name that only `p` has among the pairs of `s` maps to `p`'s id.
proof fn lemma_map_of_unique(s: Seq<(Seq<char>, i64)>, p: (Seq<char>, i64))
    requires
        has_pair(s, p),
        forall|k: int| 0 <= k < s.len() && (#[trigger] s[k]).0 == p.0 ==> s[k] == p,
    ensures
        map_of(s).contains_key(p.0),
        map_of(s)[p.0] == p.1,
    decreases s.len(),
{
    let init = s.drop_last();
    if s.last().0 != p.0 {
        let k = choose|k: int| 0 <= k < s.len() && s[k] == p;
        assert(k < s.len() - 1);
        assert(init[k] == p);
        assert forall|k2: int| 0 <= k2 < init.len() && (#[trigger] init[k2]).0 == p.0 implies init[k2] == p by {
            assert(init[k2] == s[k2]);
        }
        lemma_map_of_unique(init, p);
    }
}

/// When no two fetched categories or children share a name, every child
/// of every category, and every top-level category that is no group, is
/// one transactions can use, under its own id; every group is found under
/// its id among the groups.
pub proof fn children_and_plain_categories_are_assignable(categories: Seq<CategoryDto>, i: int)
    requires
        distinct_names(category_entries(categories)),
        0 <= i < categories.len(),
    ensures
        forall|j: int|
            #![trigger categories[i].children@[j]]
            0 <= j < categories[i].children@.len() ==> map_of(assignable_entries(categories)).contains_key(
                categories[i].children@[j].name@,
            ) && map_of(assignable_entries(categories))[categories[i].children@[j].name@]
                == categories[i].children@[j].id,
        !categories[i].is_group ==> map_of(assignable_entries(categories)).contains_key(
            categories[i].name@,
        ) && map_of(assignable_entries(categories))[categories[i].name@] == categories[i].id,
        categories[i].is_group ==> map_of(group_entries(categories)).contains_key(categories[i].name@)
            && map_of(group_entries(categories))[categories[i].name@] == categories[i].id,
{
    let a = assignable_entries(categories);
    let e = category_entries(categories);
    let g = group_entries(categories);
    lemma_category_pairs(categories, i);
    // A pair of `e` is the only one of `e` with its name, so the only one of
    // `a` or `g` with it.
    assert forall|p: (Seq<char>, i64)| has_pair(e, p) implies (forall|k: int|
        0 <= k < a.len() && (#[trigger] a[k]).0 == p.0 ==> a[k] == p) && (forall|k: int|
        0 <= k < g.len() && (#[trigger] g[k]).0 == p.0 ==> g[k] == p) by {
        let m = choose|m: int| 0 <= m < e.len() && e[m] == p;
        assert forall|k: int| 0 <= k < a.len() && (#[trigger] a[k]).0 == p.0 implies a[k] == p by {
            lemma_assignable_in_entries(categories, k);
            let m2 = choose|m2: int| 0 <= m2 < e.len() && e[m2] == a[k];
            if m2 < m {
                assert(e[m2].0 != e[m].0);
            } else if m < m2 {
                assert(e[m].0 != e[m2].0);
            }
        }
        assert forall|k: int| 0 <= k < g.len() && (#[trigger] g[k]).0 == p.0 implies g[k] == p by {
            lemma_groups_in_entries(categories, k);
            let m2 = choose|m2: int| 0 <= m2 < e.len() && e[m2] == g[k];
            if m2 < m {
                assert(e[m2].0 != e[m].0);
            } else if m < m2 {
                assert(e[m].0 != e[m2].0);
            }
        }
    }
    assert forall|j: int|
        #![trigger categories[i].children@[j]]
        0 <= j < categories[i].children@.len() implies map_of(a).contains_key(
            categories[i].children@[j].name@,
        ) && map_of(a)[categories[i].children@[j].name@] == categories[i].children@[j].id by {
        let p = (categories[i].children@[j].name@, categories[i].children@[j].id);
        lemma_map_of_unique(a, p);
    }
    let q = (categories[i].name@, categories[i].id);
    if !categories[i].is_group {
        lemma_map_of_unique(a, q);
    } else {
        lemma_map_of_unique(g, q);
    }
}

/// The category ids by name, split into those transactions can use and the
/// groups; fails as `category_name_to_id_map` does when a name occurs twice.
pub fn category_name_to_id_maps(categories: &[CategoryDto]) -> (r: Result<
    CategoryNameToIdMaps,
    LunchMoneyError,
>)
    ensures
        r is Ok <==> distinct_names(category_entries(categories@)),
        r matches Ok(m) ==> m.assignable@ == map_of(assignable_entries(categories@))
            && m.non_assignable@ == map_of(group_entries(categories@)),
        r matches Err(e) ==> is_name_map_of(categories@, Err(e)),
{
    match category_name_to_id_map(categories) {
        Err(e) => {
            return Err(e);
        },
        Ok(_) => {},
    }
    let mut assignable: Vec<(String, i64)> = Vec::new();
    let mut groups: Vec<(String, i64)> = Vec::new();
    let mut i: usize = 0;
    while i < categories.len()
        invariant
            i <= categories@.len(),
            pair_views(assignable@) == assignable_entries(categories@.take(i as int)),
            pair_views(groups@) == group_entries(categories@.take(i as int)),
        decreases categories@.len() - i,
    {
        let category = &categories[i];
        let ghost a0 = pair_views(assignable@);
        let ghost g0 = pair_views(groups@);
        assert(categories@.take(i + 1).drop_last() =~= categories@.take(i as int));
        if category.is_group {
            groups.push((category.name.clone(), category.id));
            assert(pair_views(groups@) =~= g0 + seq![(category.name@, category.id)]);
        } else {
            assignable.push((category.name.clone(), category.id));
            assert(pair_views(assignable@) =~= a0 + seq![(category.name@, category.id)]);
        }
        let ghost a1 = pair_views(assignable@);
        let mut k: usize = 0;
        while k < category.children.len()
            invariant
                k <= category.children@.len(),
                pair_views(assignable@) == a1 + child_entries(category.children@.take(k as int)),
            decreases category.children@.len() - k,
        {
            let child = &category.children[k];
            let ghost mid = pair_views(assignable@);
            assignable.push((child.name.clone(), child.id));
            assert(child_entries(category.children@.take(k + 1)) =~= child_entries(
                category.children@.take(k as int),
            ).push((child.name@, child.id)));
            assert(pair_views(assignable@) =~= mid.push((child.name@, child.id)));
            k = k + 1;
        }
        assert(category.children@.take(category.children@.len() as int) =~= category.children@);
        proof {
            if category.is_group {
                assert(a1 =~= a0 + Seq::empty());
                assert(pair_views(groups@) == g0 + seq![(category.name@, category.id)]);
            } else {
                assert(pair_views(groups@) =~= g0 + Seq::empty());
            }
        }
        i = i + 1;
    }
    assert(categories@.take(categories@.len() as int) =~= categories@);
    Ok(
        CategoryNameToIdMaps {
            assignable: NameMap::from_pairs(assignable),
            non_assignable: NameMap::from_pairs(groups),
        },
    )
}

/// Why writing to Lunch Money failed.
#[derive(Clone, Debug, PartialEq)]
pub enum LunchMoneySinkError {
    /// A call to Lunch Money failed.
    Api(LunchMoneyError),
    /// No manual account has the configured name.
    AccountNotFound(String),
    /// Some category names cannot be used for transactions.
    CategoryMapping(CategoryMappingError),
    /// A transaction's category has no id.
    MissingCategory(MissingCategory),
}

impl MissingCategory {
    /// A sentence that names the category and the transaction.
    pub fn message(&self) -> (m: String)
        ensures
            m@ == "Lunch Money category '"@ + self.category_name@ + "' for transaction '"@
                + uuid_text(self.transaction_id) + "' not found"@,
    {
        let mut m = "Lunch Money category '".to_string();
        append_str(&mut m, self.category_name.as_str());
        append_str(&mut m, "' for transaction '");
        let id = uuid_to_string(self.transaction_id);
        append_str(&mut m, id.as_str());
        append_str(&mut m, "' not found");
        m
    }
}

impl LunchMoneySinkError {
    /// A sentence that says what went wrong.
    pub fn message(&self) -> (m: String)
        ensures
            self matches LunchMoneySinkError::AccountNotFound(n) ==> m@ == "Account with name '"@
                + n@ + "' not found"@,
    {
        match self {
            LunchMoneySinkError::Api(e) => e.message(),
            LunchMoneySinkError::AccountNotFound(name) => {
                let mut m = "Account with name '".to_string();
                append_str(&mut m, name.as_str());
                append_str(&mut m, "' not found");
                m
            },
            LunchMoneySinkError::CategoryMapping(e) => e.message(),
            LunchMoneySinkError::MissingCategory(e) => e.message(),
        }
    }
}

/// Writes transactions to a Lunch Money manual account, replacing the
/// ones there.
pub struct LunchMoneySink {
    config: LunchMoneySinkConfig,
    transactions_deletion_service: Box<dyn LunchMoneyTransactionsDeletionService>,
    transactions_upload_service: Box<dyn LunchMoneyTransactionsUploadService>,
}

/// The sink for the configured account.
pub fn create_lunchmoney_sink(config: LunchMoneySinkConfig) -> (s: LunchMoneySink)
    ensures
        s.spec_config() == config,
{
    LunchMoneySink {
        config,
        transactions_deletion_service: Box::new(DefaultLunchMoneyTransactionsDeletionService),
        transactions_upload_service: Box::new(DefaultLunchMoneyTransactionsUploadService),
    }
}

/// Whether `names` are the category names of `transactions`, each once, in
/// increasing order (what `get_all_transaction_category_names` gives).
pub open spec fn category_names_of(names: Seq<Seq<char>>, transactions: Seq<Transaction>) -> bool {
    &&& strictly_sorted(names)
    &&& forall|n: Seq<char>| #[trigger] has_name(names, n) <==> exists|i: int|
        0 <= i < transactions.len() && category_name_of(#[trigger] transactions[i].tags@) =~= Some(n)
}

/// The query for the existing transactions of the manual account
/// `account_id`.
pub open spec fn existing_transactions_params(account_id: i64) -> GetTransactionsParams {
    GetTransactionsParams {
        start_date: None,
        end_date: None,
        manual_account_id: Some(account_id),
        limit: Some(500),
        offset: None,
    }
}

/// Whether `made` are the calls and `r` the result of the sink once the
/// category ids `ids` are known: the existing transactions of the account
/// are fetched, handed to the deletion service, and then the insert
/// requests of `transactions` are handed to the upload service; the first
/// failure ends it, with no call after it.
pub open spec fn sink_replaced(
    sink: LunchMoneySink,
    transactions: Seq<Transaction>,
    account_id: i64,
    ids: Map<Seq<char>, i64>,
    made: Seq<ApiCall>,
    r: Result<(), LunchMoneySinkError>,
) -> bool {
    let name = sink.spec_config().account_name@;
    &&& made.len() >= 1
    &&& made[0] is GetAllTransactions
    &&& made[0]->GetAllTransactions_0 == existing_transactions_params(account_id)
    &&& match made[0]->GetAllTransactions_1 {
        Err(cause) => made.len() == 1 && (r matches Err(
            LunchMoneySinkError::Api(LunchMoneyError::Api { context, cause: c }),
        ) && context@ == "failed to get existing transactions for account"@ && c == cause),
        Ok(existing) => exists|deletion: Seq<ApiCall>, d: Result<(), LunchMoneyError>|
            #[trigger] sink.deletion_answered(name, existing@, deletion, d) && match d {
                Err(e) => made == seq![made[0]] + deletion && r == Err::<(), LunchMoneySinkError>(
                    LunchMoneySinkError::Api(e),
                ),
                Ok(()) => exists|
                    inserts: Seq<InsertTransactionDto>,
                    upload: Seq<ApiCall>,
                    u: Result<(), LunchMoneyError>,
                |
                    {
                        &&& #[trigger] sink.upload_answered(name, inserts, upload, u)
                        &&& made == seq![made[0]] + deletion + upload
                        &&& inserts.len() == transactions.len()
                        &&& forall|k: int|
                            0 <= k < inserts.len() ==> is_insert_request(
                                #[trigger] inserts[k],
                                transactions[k],
                                account_id,
                                ids,
                            )
                        &&& match u {
                            Err(e) => r == Err::<(), LunchMoneySinkError>(
                                LunchMoneySinkError::Api(e),
                            ),
                            Ok(()) => r is Ok,
                        }
                    },
            },
    }
}

/// Whether `made` are the calls and `r` the result of the sink once Lunch
/// Money answered `categories`: an `Api` error when two categories share a
/// name (see `category_name_to_id_map`); a `CategoryMapping` error when
/// category names of the transactions are groups or unknown, both with no
/// further call; otherwise what `sink_replaced` describes with their ids.
pub open spec fn sink_mapped(
    sink: LunchMoneySink,
    transactions: Seq<Transaction>,
    account_id: i64,
    categories: Seq<CategoryDto>,
    made: Seq<ApiCall>,
    r: Result<(), LunchMoneySinkError>,
) -> bool {
    if !distinct_names(category_entries(categories)) {
        made.len() == 0 && (r matches Err(LunchMoneySinkError::Api(e)) && is_name_map_of(
            categories,
            Err(e),
        ))
    } else {
        let assignable = map_of(assignable_entries(categories));
        let groups = map_of(group_entries(categories));
        exists|names: Seq<Seq<char>>|
            #[trigger] category_names_of(names, transactions) && if names_in(names, groups).len() > 0 {
                made.len() == 0 && (r matches Err(
                    LunchMoneySinkError::CategoryMapping(CategoryMappingError::NonAssignable(v)),
                ) && string_views(v@) == names_in(names, groups))
            } else if names_in_neither(names, assignable, groups).len() > 0 {
                made.len() == 0 && (r matches Err(
                    LunchMoneySinkError::CategoryMapping(CategoryMappingError::Unknown(v)),
                ) && string_views(v@) == names_in_neither(names, assignable, groups))
            } else {
                sink_replaced(
                    sink,
                    transactions,
                    account_id,
                    assignable.restrict(names.to_set()),
                    made,
                    r,
                )
            }
    }
}

/// Whether `made` are the calls and `r` the result of writing
/// `transactions` with `sink`: the manual accounts are fetched and the
/// account is looked up by name (its failure is the result); then the
/// categories are fetched, and `sink_mapped` describes the rest.
pub open spec fn sink_written(
    sink: LunchMoneySink,
    transactions: Seq<Transaction>,
    made: Seq<ApiCall>,
    r: Result<(), LunchMoneySinkError>,
) -> bool {
    let name = sink.spec_config().account_name@;
    &&& made.len() >= 1
    &&& made[0] is GetAllManualAccounts
    &&& exists|lookup: Result<i64, LunchMoneySinkError>|
        #[trigger] account_lookup(made[0]->GetAllManualAccounts_0, name, lookup) && match lookup {
            Err(e) => made.len() == 1 && r == Err::<(), LunchMoneySinkError>(e),
            Ok(account_id) => made.len() >= 2 && made[1] is GetAllCategories && match made[1]->GetAllCategories_0 {
                Err(cause) => made.len() == 2 && (r matches Err(
                    LunchMoneySinkError::Api(LunchMoneyError::Api { context, cause: c }),
                ) && context@ == "failed to fetch Lunch Money categories"@ && c == cause),
                Ok(categories) => sink_mapped(
                    sink,
                    transactions,
                    account_id,
                    categories@,
                    made.skip(2),
                    r,
                ),
            },
        }
}

impl LunchMoneySink {
    pub closed spec fn spec_config(self) -> LunchMoneySinkConfig {
        self.config
    }

    /// Whether `made` and `r` are a run of the sink's deletion service asked
    /// to delete `existing` from the account `account_name`.
    pub closed spec fn deletion_answered(
        self,
        account_name: Seq<char>,
        existing: Seq<TransactionDto>,
        made: Seq<ApiCall>,
        r: Result<(), LunchMoneyError>,
    ) -> bool {
        self.transactions_deletion_service.deletion_answer(account_name, existing, made, r)
    }

    /// Whether `made` and `r` are a run of the sink's upload service asked to
    /// upload `inserts` to the account `account_name`.
    pub closed spec fn upload_answered(
        self,
        account_name: Seq<char>,
        inserts: Seq<InsertTransactionDto>,
        made: Seq<ApiCall>,
        r: Result<(), LunchMoneyError>,
    ) -> bool {
        self.transactions_upload_service.upload_answer(account_name, inserts, made, r)
    }

    pub fn name(&self) -> (r: &'static str)
        ensures
            r@ == "Lunch Money"@,
    {
        "Lunch Money"
    }

    /// The configuration.
    pub fn config(&self) -> (c: &LunchMoneySinkConfig)
        ensures
            *c == self.spec_config(),
    {
        &self.config
    }

    /// The id of the first manual account called `account_name`, after one
    /// call, `GET /manual_accounts`.
    pub fn get_account_id_for_account_name(
        account_name: &LunchMoneyAccountName,
        api_client: &mut Box<dyn LunchMoneyApi>,
    ) -> (r: Result<i64, LunchMoneySinkError>)
        ensures
            r matches Err(LunchMoneySinkError::AccountNotFound(n)) ==> n@ == account_name@,
            r matches Err(e) ==> e is Api || e is AccountNotFound,
            exists|answer: Result<Vec<ManualAccountDto>, ApiError>|
                final(api_client).calls() == old(api_client).calls().push(
                    ApiCall::GetAllManualAccounts(answer),
                ) && #[trigger] account_lookup(answer, account_name@, r),
    {
        let answer = api_client.get_all_manual_accounts();
        let ghost got = answer;
        let accounts = match answer {
            Ok(a) => a,
            Err(cause) => {
                let r = Err(
                    LunchMoneySinkError::Api(
                        LunchMoneyError::api("Failed to retrieve Lunch Money manual accounts", cause),
                    ),
                );
                assert(account_lookup(got, account_name@, r));
                return r;
            },
        };
        let r = match find_account_id(accounts.as_slice(), account_name.value()) {
            Some(id) => Ok(id),
            None => Err(LunchMoneySinkError::AccountNotFound(account_name.value().to_string())),
        };
        assert(account_lookup(got, account_name@, r));
        r
    }

    /// Replaces the transactions of the configured account with
    /// `transactions`: resolves the account and the category ids, deletes
    /// the existing transactions and uploads the new ones (see
    /// `sink_written`).
    pub fn write_with(&self, client: &mut Box<dyn LunchMoneyApi>, transactions: &[Transaction]) -> (r:
        Result<(), LunchMoneySinkError>)
        ensures
            exists|made: Seq<ApiCall>|
                final(client).calls() == old(client).calls() + made && #[trigger] sink_written(
                    *self,
                    transactions@,
                    made,
                    r,
                ),
            r matches Err(LunchMoneySinkError::AccountNotFound(n)) ==> n@
                == self.spec_config().account_name@,
            !(r matches Err(LunchMoneySinkError::MissingCategory(_))),
            r matches Err(LunchMoneySinkError::CategoryMapping(e)) ==> all_categories_of(
                mapping_error_names(e),
                transactions@,
            ),
    {
        let ghost before = client.calls();
        let ghost name = self.spec_config().account_name@;
        let account_name = self.config.account_name.value();
        let accounts_answer = client.get_all_manual_accounts();
        let ghost accounts_call = ApiCall::GetAllManualAccounts(accounts_answer);
        let ghost accounts_got = accounts_answer;
        assert(client.calls() =~= before + seq![accounts_call]);
        let accounts = match accounts_answer {
            Ok(a) => a,
            Err(cause) => {
                let r = Err(
                    LunchMoneySinkError::Api(
                        LunchMoneyError::api("Failed to retrieve Lunch Money manual accounts", cause),
                    ),
                );
                proof {
                    let looked = Err::<i64, LunchMoneySinkError>(r->Err_0);
                    assert(account_lookup(accounts_got, name, looked));
                    assert(sink_written(*self, transactions@, seq![accounts_call], r));
                }
                return r;
            },
        };
        let account_id = match find_account_id(accounts.as_slice(), account_name) {
            Some(id) => id,
            None => {
                let r = Err(LunchMoneySinkError::AccountNotFound(account_name.to_string()));
                proof {
                    let looked = Err::<i64, LunchMoneySinkError>(r->Err_0);
                    assert(account_lookup(accounts_got, name, looked));
                    assert(sink_written(*self, transactions@, seq![accounts_call], r));
                }
                return r;
            },
        };
        let ghost looked = Ok::<i64, LunchMoneySinkError>(account_id);
        assert(account_lookup(accounts_got, name, looked));
        let names = get_all_transaction_category_names(transactions);
        let ghost name_views = string_views(names@);
        assert(category_names_of(name_views, transactions@));
        let answer = client.get_all_categories();
        let ghost categories_call = ApiCall::GetAllCategories(answer);
        let ghost head = seq![accounts_call, categories_call];
        assert(client.calls() =~= before + head);
        let categories = match answer {
            Ok(c) => c,
            Err(cause) => {
                let r = Err(
                    LunchMoneySinkError::Api(
                        LunchMoneyError::api("failed to fetch Lunch Money categories", cause),
                    ),
                );
                assert(sink_written(*self, transactions@, head, r));
                return r;
            },
        };
        assert(head.skip(2) =~= Seq::<ApiCall>::empty());
        let maps = match category_name_to_id_maps(categories.as_slice()) {
            Ok(m) => m,
            Err(e) => {
                let r = Err(LunchMoneySinkError::Api(e));
                assert(sink_mapped(*self, transactions@, account_id, categories@, head.skip(2), r));
                assert(sink_written(*self, transactions@, head, r));
                return r;
            },
        };
        let ids = match map_category_names_to_ids(names.as_slice(), &maps) {
            Ok(ids) => ids,
            Err(e) => {
                proof {
                    let listed = mapping_error_names(e);
                    assert forall|k: int| 0 <= k < listed.len() implies has_name(
                        name_views,
                        #[trigger] listed[k],
                    ) by {
                        match e {
                            CategoryMappingError::NonAssignable(_) => {
                                lemma_names_in_from(name_views, maps.non_assignable@, k);
                            },
                            CategoryMappingError::Unknown(_) => {
                                lemma_names_in_neither_from(
                                    name_views,
                                    maps.assignable@,
                                    maps.non_assignable@,
                                    k,
                                );
                            },
                        }
                    }
                    lemma_listed_names_are_categories(name_views, transactions@, listed);
                }
                let r = Err(LunchMoneySinkError::CategoryMapping(e));
                assert(sink_mapped(*self, transactions@, account_id, categories@, head.skip(2), r));
                assert(sink_written(*self, transactions@, head, r));
                return r;
            },
        };
        proof {
            mapped_categories_cover_every_transaction(
                transactions@,
                name_views,
                maps.assignable@,
                maps.non_assignable@,
            );
        }
        let params = GetTransactionsParams {
            start_date: None,
            end_date: None,
            manual_account_id: Some(account_id),
            limit: Some(500),
            offset: None,
        };
        assert(params == existing_transactions_params(account_id));
        let existing_answer = client.get_all_transactions(&params);
        let ghost existing_call = ApiCall::GetAllTransactions(params, existing_answer);
        let ghost third = seq![existing_call];
        assert(client.calls() =~= before + head + third);
        let existing = match existing_answer {
            Ok(t) => t,
            Err(cause) => {
                let r = Err(
                    LunchMoneySinkError::Api(
                        LunchMoneyError::api(
                            "failed to get existing transactions for account",
                            cause,
                        ),
                    ),
                );
                proof {
                    assert((head + third).skip(2) =~= third);
                    assert(sink_replaced(*self, transactions@, account_id, ids@, third, r));
                    assert(sink_mapped(*self, transactions@, account_id, categories@, (head + third).skip(2), r));
                    assert(sink_written(*self, transactions@, head + third, r));
                }
                return r;
            },
        };
        let ghost mid = client.calls();
        let deleted = self.transactions_deletion_service.delete_transactions(
            client,
            account_name,
            existing.as_slice(),
        );
        let ghost deleted_got = deleted;
        let ghost deletion = choose|m: Seq<ApiCall>|
            client.calls() == mid + m && #[trigger] self.transactions_deletion_service.deletion_answer(
                name,
                existing@,
                m,
                deleted_got,
            );
        assert(self.deletion_answered(name, existing@, deletion, deleted_got));
        assert(client.calls() =~= before + head + (third + deletion));
        match deleted {
            Ok(unit) => {
                assert(deleted_got == Ok::<(), LunchMoneyError>(unit));
            },
            Err(e) => {
                let r = Err(LunchMoneySinkError::Api(e));
                proof {
                    let rest = third + deletion;
                    assert(rest[0] == existing_call);
                    assert(rest =~= seq![rest[0]] + deletion);
                    assert(sink_replaced(*self, transactions@, account_id, ids@, rest, r));
                    assert((head + rest).skip(2) =~= rest);
                    assert(sink_mapped(*self, transactions@, account_id, categories@, (head + rest).skip(2), r));
                    assert(sink_written(*self, transactions@, head + rest, r));
                }
                return r;
            },
        }
        let inserts = match insert_requests_for(transactions, account_id, &ids) {
            Ok(v) => v,
            Err(missing) => {
                return Err(LunchMoneySinkError::MissingCategory(missing));
            },
        };
        let ghost mid2 = client.calls();
        let uploaded = self.transactions_upload_service.upload_transactions(
            client,
            account_name,
            inserts.as_slice(),
        );
        let ghost uploaded_got = uploaded;
        let ghost upload = choose|m: Seq<ApiCall>|
            client.calls() == mid2 + m && #[trigger] self.transactions_upload_service.upload_answer(
                name,
                inserts@,
                m,
                uploaded_got,
            );
        assert(self.upload_answered(name, inserts@, upload, uploaded_got));
        let r = match uploaded {
            Ok(unit) => {
                assert(uploaded_got == Ok::<(), LunchMoneyError>(unit));
                Ok(())
            },
            Err(e) => Err(LunchMoneySinkError::Api(e)),
        };
        proof {
            let rest = third + deletion + upload;
            assert(rest[0] == existing_call);
            assert(rest =~= seq![rest[0]] + deletion + upload);
            assert(client.calls() =~= before + (head + rest));
            assert(sink_replaced(*self, transactions@, account_id, ids@, rest, r));
            assert((head + rest).skip(2) =~= rest);
            assert(sink_mapped(*self, transactions@, account_id, categories@, (head + rest).skip(2), r));
            assert(sink_written(*self, transactions@, head + rest, r));
        }
        r
    }
}

/// Replaces the Lunch Money category hierarchy with the configured one.
pub struct LunchMoneyCategorySetup {
    config: LunchMoneyCategorySetupConfig,
    category_hierarchy_creation_service: Box<dyn LunchMoneyCategoryHierarchyCreationService>,
}

/// The setup for the configured hierarchy.
pub fn create_lunchmoney_category_setup(config: LunchMoneyCategorySetupConfig) -> (s:
    LunchMoneyCategorySetup)
    ensures
        s.spec_config() == config,
{
    LunchMoneyCategorySetup {
        config,
        category_hierarchy_creation_service: Box::new(
            DefaultLunchMoneyCategoryHierarchyCreationService,
        ),
    }
}

impl LunchMoneyCategorySetup {
    /// The setup for the configured hierarchy, replacing it with `service`.
    pub fn with_service(
        config: LunchMoneyCategorySetupConfig,
        service: Box<dyn LunchMoneyCategoryHierarchyCreationService>,
    ) -> (s: Self)
        ensures
            s.spec_config() == config,
    {
        LunchMoneyCategorySetup { config, category_hierarchy_creation_service: service }
    }

    pub closed spec fn spec_config(self) -> LunchMoneyCategorySetupConfig {
        self.config
    }

    /// Whether `made` and `r` are a run of the setup's hierarchy service
    /// asked to replace the hierarchy with `categories`.
    pub closed spec fn service_answered(
        self,
        categories: Seq<CategoryHierarchyItem>,
        made: Seq<ApiCall>,
        r: Result<(), LunchMoneyError>,
    ) -> bool {
        self.category_hierarchy_creation_service.replace_answer(categories, made, r)
    }

    pub fn name(&self) -> (r: &'static str)
        ensures
            r@ == "Lunch Money Category Setup"@,
    {
        "Lunch Money Category Setup"
    }

    /// The configuration.
    pub fn config(&self) -> (c: &LunchMoneyCategorySetupConfig)
        ensures
            *c == self.spec_config(),
    {
        &self.config
    }

    /// Replaces the hierarchy through `client`: asks the hierarchy service
    /// to replace it with the configured categories, and passes its success
    /// on, or its failure as the cause of an `Api` error.
    pub fn run_with(&self, client: &mut Box<dyn LunchMoneyApi>) -> (r: Result<(), LunchMoneyError>)
        ensures
            r matches Err(e) ==> (e matches LunchMoneyError::Api { context, .. } && context@
                == "failed to replace Lunch Money category hierarchy"@),
            exists|made: Seq<ApiCall>, answer: Result<(), LunchMoneyError>|
                final(client).calls() == old(client).calls() + made
                    && #[trigger] self.service_answered(self.spec_config().categories@, made, answer)
                    && match answer {
                    Ok(()) => r is Ok,
                    Err(e) => r matches Err(LunchMoneyError::Api { cause, .. })
                        && cause.message@ == error_text(e),
                },
    {
        let ghost before = client.calls();
        let answer = self.category_hierarchy_creation_service.replace_category_hierarchy(
            client,
            self.config.categories.as_slice(),
        );
        let ghost got = answer;
        let ghost made = choose|m: Seq<ApiCall>|
            client.calls() == before + m && #[trigger] self.category_hierarchy_creation_service.replace_answer(
                self.config.categories@,
                m,
                got,
            );
        assert(self.service_answered(self.spec_config().categories@, made, got));
        match answer {
            Ok(unit) => {
                assert(got == Ok::<(), LunchMoneyError>(unit));
                Ok(())
            },
            Err(e) => Err(
                LunchMoneyError::api(
                    "failed to replace Lunch Money category hierarchy",
                    ApiError { message: e.message() },
                ),
            ),
        }
    }
}

} // verus!
