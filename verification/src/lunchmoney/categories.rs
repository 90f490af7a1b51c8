//! Lunch Money category hierarchies: whether the existing hierarchy already
//! is the requested one, and the requests that create a requested one.
use vstd::prelude::*;
use crate::lunchmoney::api::{concat_runs, lemma_concat_runs_push, ApiCall, ApiError, LunchMoneyApi, LunchMoneyError};
use crate::lunchmoney::dto::{CategoryDto, ChildCategoryDto, CreateCategoryRequest};
use crate::text::{append_str, i64_to_decimal, signed_decimal};

verus! {

/// A requested top-level category. It becomes a group exactly when it has
/// children.
#[derive(Clone, Debug, PartialEq)]
pub struct CategoryHierarchyItem {
    pub name: String,
    pub description: Option<String>,
    pub is_income: Option<bool>,
    pub exclude_from_budget: Option<bool>,
    pub exclude_from_totals: Option<bool>,
    pub children: Vec<ChildCategoryHierarchyItem>,
}

/// A requested category inside a group.
#[derive(Clone, Debug, PartialEq)]
pub struct ChildCategoryHierarchyItem {
    pub name: String,
    pub description: Option<String>,
}

/// The view of an optional string.
pub open spec fn opt_view(o: Option<String>) -> Option<Seq<char>> {
    match o {
        Some(s) => Some(s@),
        None => None,
    }
}

/// A requested flag matches when it is unset or equal to the existing one.
pub open spec fn spec_optional_bool_matches(requested: Option<bool>, existing: bool) -> bool {
    match requested {
        Some(r) => r == existing,
        None => true,
    }
}

/// The sort key of the item at `index`: its order, or its index when it
/// has none, then its index.
pub open spec fn sort_key(order: Option<i64>, index: int) -> (int, int) {
    (
        match order {
            Some(o) => o as int,
            None => index,
        },
        index,
    )
}

pub open spec fn key_less(a: (int, int), b: (int, int)) -> bool {
    a.0 < b.0 || (a.0 == b.0 && a.1 < b.1)
}

/// How many of the first `upto` keys come before key `i`.
pub open spec fn rank_upto(keys: Seq<(int, int)>, i: int, upto: int) -> int
    decreases upto,
{
    if upto <= 0 {
        0
    } else {
        rank_upto(keys, i, upto - 1) + if key_less(keys[upto - 1], keys[i]) {
            1int
        } else {
            0
        }
    }
}

/// The position of key `i` once the keys are sorted.
pub open spec fn rank(keys: Seq<(int, int)>, i: int) -> int {
    rank_upto(keys, i, keys.len() as int)
}

pub open spec fn child_keys(children: Seq<ChildCategoryDto>) -> Seq<(int, int)> {
    Seq::new(children.len(), |i: int| sort_key(children[i].order, i))
}

pub open spec fn category_keys(categories: Seq<CategoryDto>) -> Seq<(int, int)> {
    Seq::new(categories.len(), |i: int| sort_key(categories[i].order, i))
}

/// Whether an existing child of the group with id `parent_id` is the
/// requested child.
pub open spec fn child_matches(
    existing: ChildCategoryDto,
    requested: ChildCategoryHierarchyItem,
    parent_id: i64,
) -> bool {
    &&& existing.name@ == requested.name@
    &&& opt_view(existing.description) == opt_view(requested.description)
    &&& !existing.is_group
    &&& existing.group_id == Some(parent_id)
}

/// Whether an existing top-level category is the requested one, its
/// children taken in their order (by `order`, else by position).
pub open spec fn spec_category_matches_request(
    existing: CategoryDto,
    requested: CategoryHierarchyItem,
) -> bool {
    &&& existing.name@ == requested.name@
    &&& opt_view(existing.description) == opt_view(requested.description)
    &&& spec_optional_bool_matches(requested.is_income, existing.is_income)
    &&& spec_optional_bool_matches(requested.exclude_from_budget, existing.exclude_from_budget)
    &&& spec_optional_bool_matches(requested.exclude_from_totals, existing.exclude_from_totals)
    &&& existing.is_group == (requested.children@.len() > 0)
    &&& existing.group_id is None
    &&& existing.children@.len() == requested.children@.len()
    &&& forall|i: int|
        0 <= i < existing.children@.len() ==> child_matches(
            #[trigger] existing.children@[i],
            requested.children@[rank(child_keys(existing.children@), i)],
            existing.id,
        )
}

/// Whether the existing top-level categories, taken in their order (by
/// `order`, else by position), are the requested ones.
pub open spec fn spec_category_hierarchy_matches_request(
    existing: Seq<CategoryDto>,
    requested: Seq<CategoryHierarchyItem>,
) -> bool {
    &&& existing.len() == requested.len()
    &&& forall|i: int|
        0 <= i < existing.len() ==> spec_category_matches_request(
            #[trigger] existing[i],
            requested[rank(category_keys(existing), i)],
        )
}

proof fn lemma_rank_upto_bound(keys: Seq<(int, int)>, i: int, upto: int)
    requires
        0 <= i < keys.len(),
        0 <= upto <= keys.len(),
        keys[i].1 == i,
        forall|j: int| 0 <= j < keys.len() ==> (#[trigger] keys[j]).1 == j,
    ensures
        0 <= rank_upto(keys, i, upto) <= upto,
        upto > i ==> rank_upto(keys, i, upto) <= upto - 1,
    decreases upto,
{
    if upto > 0 {
        lemma_rank_upto_bound(keys, i, upto - 1);
        if upto - 1 == i {
            assert(!key_less(keys[i], keys[i]));
        }
    }
}

/// Whether item `j` comes before item `i` once items are sorted by their
/// `order` (an item without one counts as being at its position), items
/// with the same order keeping their positions' order.
pub open spec fn sorts_before(orders: Seq<Option<i64>>, j: int, i: int) -> bool {
    let oj = match orders[j] {
        Some(o) => o as int,
        None => j,
    };
    let oi = match orders[i] {
        Some(o) => o as int,
        None => i,
    };
    oj < oi || (oj == oi && j < i)
}

/// How many of the first `upto` items come before item `i` once sorted.
pub open spec fn count_sorted_before(orders: Seq<Option<i64>>, i: int, upto: int) -> int
    decreases upto,
{
    if upto <= 0 {
        0
    } else {
        count_sorted_before(orders, i, upto - 1) + if sorts_before(orders, upto - 1, i) {
            1int
        } else {
            0
        }
    }
}

/// The place of item `i` once the items with these orders are sorted.
pub open spec fn sorted_position(orders: Seq<Option<i64>>, i: int) -> int {
    count_sorted_before(orders, i, orders.len() as int)
}

proof fn lemma_count_sorted_before_monotone(orders: Seq<Option<i64>>, j: int, i: int, upto: int)
    requires
        0 <= j < orders.len(),
        0 <= i < orders.len(),
        0 <= upto <= orders.len(),
        sorts_before(orders, j, i),
    ensures
        count_sorted_before(orders, j, upto) <= count_sorted_before(orders, i, upto),
        upto > j ==> count_sorted_before(orders, j, upto) < count_sorted_before(orders, i, upto),
    decreases upto,
{
    if upto > 0 {
        lemma_count_sorted_before_monotone(orders, j, i, upto - 1);
    }
}

proof fn lemma_count_sorted_before_bound(orders: Seq<Option<i64>>, i: int, upto: int)
    requires
        0 <= i < orders.len(),
        0 <= upto <= orders.len(),
    ensures
        0 <= count_sorted_before(orders, i, upto) <= upto,
        upto > i ==> count_sorted_before(orders, i, upto) < upto,
    decreases upto,
{
    if upto > 0 {
        lemma_count_sorted_before_bound(orders, i, upto - 1);
    }
}

/// Sorting gives every item its own place in the list: the place is
/// within the list, an item that sorts before another gets an earlier
/// place, and two items never share a place.
pub proof fn sorted_positions_follow_the_order(orders: Seq<Option<i64>>, i: int, j: int)
    requires
        0 <= i < orders.len(),
        0 <= j < orders.len(),
    ensures
        0 <= sorted_position(orders, i) < orders.len(),
        sorts_before(orders, j, i) ==> sorted_position(orders, j) < sorted_position(orders, i),
        i != j ==> sorted_position(orders, i) != sorted_position(orders, j),
{
    lemma_count_sorted_before_bound(orders, i, orders.len() as int);
    if sorts_before(orders, j, i) {
        lemma_count_sorted_before_monotone(orders, j, i, orders.len() as int);
    } else if sorts_before(orders, i, j) {
        lemma_count_sorted_before_monotone(orders, i, j, orders.len() as int);
    }
}

/// The orders of children, as Lunch Money lists them.
pub open spec fn child_orders(children: Seq<ChildCategoryDto>) -> Seq<Option<i64>> {
    Seq::new(children.len(), |k: int| children[k].order)
}

/// The orders of top-level categories, as Lunch Money lists them.
pub open spec fn category_orders(categories: Seq<CategoryDto>) -> Seq<Option<i64>> {
    Seq::new(categories.len(), |k: int| categories[k].order)
}

proof fn lemma_rank_is_sorted_position(keys: Seq<(int, int)>, orders: Seq<Option<i64>>, i: int, upto: int)
    requires
        keys.len() == orders.len(),
        0 <= i < keys.len(),
        0 <= upto <= keys.len(),
        forall|k: int| 0 <= k < keys.len() ==> #[trigger] keys[k] == sort_key(orders[k], k),
    ensures
        rank_upto(keys, i, upto) == count_sorted_before(orders, i, upto),
    decreases upto,
{
    if upto > 0 {
        lemma_rank_is_sorted_position(keys, orders, i, upto - 1);
        assert(keys[upto - 1] == sort_key(orders[upto - 1], upto - 1));
        assert(keys[i] == sort_key(orders[i], i));
    }
}

/// The sorted place of a child is what `rank` computes over its sort keys.
proof fn lemma_child_rank(children: Seq<ChildCategoryDto>, i: int)
    requires
        0 <= i < children.len(),
    ensures
        rank(child_keys(children), i) == sorted_position(child_orders(children), i),
{
    let keys = child_keys(children);
    let orders = child_orders(children);
    assert forall|k: int| 0 <= k < keys.len() implies #[trigger] keys[k] == sort_key(orders[k], k) by {}
    lemma_rank_is_sorted_position(keys, orders, i, keys.len() as int);
}

/// The sorted place of a category is what `rank` computes over its sort keys.
proof fn lemma_category_rank(categories: Seq<CategoryDto>, i: int)
    requires
        0 <= i < categories.len(),
    ensures
        rank(category_keys(categories), i) == sorted_position(category_orders(categories), i),
{
    let keys = category_keys(categories);
    let orders = category_orders(categories);
    assert forall|k: int| 0 <= k < keys.len() implies #[trigger] keys[k] == sort_key(orders[k], k) by {}
    lemma_rank_is_sorted_position(keys, orders, i, keys.len() as int);
}

/// An existing category that matches the requested one has its name and
/// description, every flag the request sets, is a group exactly when
/// children are requested, and its children, taken in their sorted order
/// (by `order`, whatever order Lunch Money lists them in), have the
/// requested names and descriptions and belong to it.
pub proof fn matching_category_is_the_requested_one(
    existing: CategoryDto,
    requested: CategoryHierarchyItem,
)
    requires
        spec_category_matches_request(existing, requested),
    ensures
        existing.name@ == requested.name@,
        opt_view(existing.description) == opt_view(requested.description),
        requested.is_income is Some ==> existing.is_income == requested.is_income->Some_0,
        requested.exclude_from_budget is Some ==> existing.exclude_from_budget
            == requested.exclude_from_budget->Some_0,
        requested.exclude_from_totals is Some ==> existing.exclude_from_totals
            == requested.exclude_from_totals->Some_0,
        existing.is_group == (requested.children@.len() > 0),
        existing.group_id is None,
        existing.children@.len() == requested.children@.len(),
        forall|i: int|
            #![trigger existing.children@[i]]
            0 <= i < existing.children@.len() ==> {
                let p = sorted_position(child_orders(existing.children@), i);
                &&& existing.children@[i].name@ == requested.children@[p].name@
                &&& opt_view(existing.children@[i].description) == opt_view(
                    requested.children@[p].description,
                )
                &&& existing.children@[i].group_id == Some(existing.id)
                &&& !existing.children@[i].is_group
            },
{
    assert forall|i: int| #![trigger existing.children@[i]] 0 <= i < existing.children@.len() implies {
        let p = sorted_position(child_orders(existing.children@), i);
        &&& existing.children@[i].name@ == requested.children@[p].name@
        &&& opt_view(existing.children@[i].description) == opt_view(
            requested.children@[p].description,
        )
        &&& existing.children@[i].group_id == Some(existing.id)
        &&& !existing.children@[i].is_group
    } by {
        lemma_child_rank(existing.children@, i);
        assert(child_matches(
            existing.children@[i],
            requested.children@[rank(child_keys(existing.children@), i)],
            existing.id,
        ));
    }
}

/// An existing hierarchy that matches the requested one has as many
/// top-level categories, and each, taken in its sorted place (by `order`,
/// whatever order Lunch Money lists them in), is the requested category
/// there: its name, description, the flags the request sets, and its
/// children.
pub proof fn matching_hierarchy_is_the_requested_one(
    existing: Seq<CategoryDto>,
    requested: Seq<CategoryHierarchyItem>,
)
    requires
        spec_category_hierarchy_matches_request(existing, requested),
    ensures
        existing.len() == requested.len(),
        forall|i: int|
            #![trigger existing[i]]
            0 <= i < existing.len() ==> {
                let p = sorted_position(category_orders(existing), i);
                &&& 0 <= p < requested.len()
                &&& existing[i].name@ == requested[p].name@
                &&& spec_category_matches_request(existing[i], requested[p])
            },
{
    assert forall|i: int| #![trigger existing[i]] 0 <= i < existing.len() implies {
        let p = sorted_position(category_orders(existing), i);
        &&& 0 <= p < requested.len()
        &&& existing[i].name@ == requested[p].name@
        &&& spec_category_matches_request(existing[i], requested[p])
    } by {
        lemma_category_rank(existing, i);
        let keys = category_keys(existing);
        assert forall|j: int| 0 <= j < keys.len() implies (#[trigger] keys[j]).1 == j by {}
        lemma_rank_upto_bound(keys, i, keys.len() as int);
        assert(spec_category_matches_request(existing[i], requested[rank(keys, i)]));
    }
}

/// A category that has the requested name, description and set flags, is
/// a group exactly when children are requested, is top-level, and whose
/// children, in their sorted order, are the requested ones in that group,
/// matches the request.
pub proof fn requested_category_matches(existing: CategoryDto, requested: CategoryHierarchyItem)
    requires
        existing.name@ == requested.name@,
        opt_view(existing.description) == opt_view(requested.description),
        requested.is_income is Some ==> existing.is_income == requested.is_income->Some_0,
        requested.exclude_from_budget is Some ==> existing.exclude_from_budget
            == requested.exclude_from_budget->Some_0,
        requested.exclude_from_totals is Some ==> existing.exclude_from_totals
            == requested.exclude_from_totals->Some_0,
        existing.is_group == (requested.children@.len() > 0),
        existing.group_id is None,
        existing.children@.len() == requested.children@.len(),
        forall|i: int|
            #![trigger existing.children@[i]]
            0 <= i < existing.children@.len() ==> {
                let p = sorted_position(child_orders(existing.children@), i);
                &&& existing.children@[i].name@ == requested.children@[p].name@
                &&& opt_view(existing.children@[i].description) == opt_view(
                    requested.children@[p].description,
                )
                &&& existing.children@[i].group_id == Some(existing.id)
                &&& !existing.children@[i].is_group
            },
    ensures
        spec_category_matches_request(existing, requested),
{
    assert forall|i: int| 0 <= i < existing.children@.len() implies child_matches(
        #[trigger] existing.children@[i],
        requested.children@[rank(child_keys(existing.children@), i)],
        existing.id,
    ) by {
        lemma_child_rank(existing.children@, i);
    }
}

/// A flag the request leaves unset matches any existing value; one it sets
/// matches only the same value.
pub proof fn set_flag_matches_only_its_value(requested: Option<bool>, existing: bool)
    ensures
        requested is None ==> spec_optional_bool_matches(requested, existing),
        requested matches Some(b) ==> (spec_optional_bool_matches(requested, existing) <==> b
            == existing),
{
}

/// A requested flag matches when it is unset or equal to the existing one.
pub fn optional_bool_matches(requested: Option<bool>, existing: bool) -> (r: bool)
    ensures
        r == spec_optional_bool_matches(requested, existing),
{
    match requested {
        Some(v) => v == existing,
        None => true,
    }
}

fn opt_str_eq(a: &Option<String>, b: &Option<String>) -> (r: bool)
    ensures
        r == (opt_view(*a) == opt_view(*b)),
{
    match (a, b) {
        (Some(x), Some(y)) => *x == *y,
        (None, None) => true,
        _ => false,
    }
}

fn key_of(order: Option<i64>, index: usize) -> (r: (i64, usize))
    requires
        index <= i64::MAX,
    ensures
        (r.0 as int, r.1 as int) == sort_key(order, index as int),
{
    match order {
        Some(o) => (o, index),
        None => (index as i64, index),
    }
}

fn exec_key_less(a: (i64, usize), b: (i64, usize)) -> (r: bool)
    ensures
        r == key_less((a.0 as int, a.1 as int), (b.0 as int, b.1 as int)),
{
    a.0 < b.0 || (a.0 == b.0 && a.1 < b.1)
}

/// The position the child at `i` takes once the children are sorted.
fn child_rank(children: &Vec<ChildCategoryDto>, i: usize) -> (r: usize)
    requires
        i < children@.len(),
        children@.len() <= i64::MAX,
    ensures
        r == rank(child_keys(children@), i as int),
        r < children@.len(),
{
    let ghost keys = child_keys(children@);
    let ki = key_of(children[i].order, i);
    let mut count: usize = 0;
    let mut j: usize = 0;
    while j < children.len()
        invariant
            j <= children@.len() <= i64::MAX,
            i < children@.len(),
            keys == child_keys(children@),
            (ki.0 as int, ki.1 as int) == keys[i as int],
            count == rank_upto(keys, i as int, j as int),
            count <= j,
        decreases children@.len() - j,
    {
        let kj = key_of(children[j].order, j);
        if exec_key_less(kj, ki) {
            count = count + 1;
        }
        j = j + 1;
    }
    proof {
        lemma_rank_upto_bound(keys, i as int, keys.len() as int);
    }
    count
}

/// The position the category at `i` takes once the categories are sorted.
fn category_rank(categories: &[CategoryDto], i: usize) -> (r: usize)
    requires
        i < categories@.len(),
        categories@.len() <= i64::MAX,
    ensures
        r == rank(category_keys(categories@), i as int),
        r < categories@.len(),
{
    let ghost keys = category_keys(categories@);
    let ki = key_of(categories[i].order, i);
    let mut count: usize = 0;
    let mut j: usize = 0;
    while j < categories.len()
        invariant
            j <= categories@.len() <= i64::MAX,
            i < categories@.len(),
            keys == category_keys(categories@),
            (ki.0 as int, ki.1 as int) == keys[i as int],
            count == rank_upto(keys, i as int, j as int),
            count <= j,
        decreases categories@.len() - j,
    {
        let kj = key_of(categories[j].order, j);
        if exec_key_less(kj, ki) {
            count = count + 1;
        }
        j = j + 1;
    }
    proof {
        lemma_rank_upto_bound(keys, i as int, keys.len() as int);
    }
    count
}

/// Whether an existing top-level category is the requested one.
pub fn category_matches_request(
    existing_category: &CategoryDto,
    requested_category: &CategoryHierarchyItem,
) -> (r: bool)
    requires
        existing_category.children@.len() <= i64::MAX,
    ensures
        r == spec_category_matches_request(*existing_category, *requested_category),
{
    if !(existing_category.name == requested_category.name) || !opt_str_eq(
        &existing_category.description,
        &requested_category.description,
    ) || !optional_bool_matches(requested_category.is_income, existing_category.is_income)
        || !optional_bool_matches(
        requested_category.exclude_from_budget,
        existing_category.exclude_from_budget,
    ) || !optional_bool_matches(
        requested_category.exclude_from_totals,
        existing_category.exclude_from_totals,
    ) || existing_category.is_group == (requested_category.children.len() == 0)
        || existing_category.group_id.is_some() || existing_category.children.len()
        != requested_category.children.len() {
        return false;
    }
    let children = &existing_category.children;
    let n = children.len();
    let mut i: usize = 0;
    while i < n
        invariant
            i <= n == children@.len() == requested_category.children@.len() <= i64::MAX,
            children == &existing_category.children,
            forall|k: int|
                0 <= k < i ==> child_matches(
                    #[trigger] children@[k],
                    requested_category.children@[rank(child_keys(children@), k)],
                    existing_category.id,
                ),
        decreases n - i,
    {
        let r = child_rank(children, i);
        let existing_child = &children[i];
        let requested_child = &requested_category.children[r];
        if !(existing_child.name == requested_child.name && opt_str_eq(
            &existing_child.description,
            &requested_child.description,
        ) && !existing_child.is_group && existing_child.group_id == Some(existing_category.id)) {
            return false;
        }
        i = i + 1;
    }
    true
}

/// Whether the existing top-level categories are the requested ones.
pub fn category_hierarchy_matches_request(
    existing_categories: &[CategoryDto],
    requested_categories: &[CategoryHierarchyItem],
) -> (r: bool)
    requires
        existing_categories@.len() <= i64::MAX,
        forall|i: int|
            0 <= i < existing_categories@.len() ==> (#[trigger] existing_categories@[i]).children@.len()
                <= i64::MAX,
    ensures
        r == spec_category_hierarchy_matches_request(existing_categories@, requested_categories@),
{
    if existing_categories.len() != requested_categories.len() {
        return false;
    }
    let n = existing_categories.len();
    let mut i: usize = 0;
    while i < n
        invariant
            i <= n == existing_categories@.len() == requested_categories@.len() <= i64::MAX,
            forall|k: int|
                0 <= k < existing_categories@.len() ==> (#[trigger] existing_categories@[k]).children@.len()
                    <= i64::MAX,
            forall|k: int|
                0 <= k < i ==> spec_category_matches_request(
                    #[trigger] existing_categories@[k],
                    requested_categories@[rank(category_keys(existing_categories@), k)],
                ),
        decreases n - i,
    {
        let r = category_rank(existing_categories, i);
        if !category_matches_request(&existing_categories[i], &requested_categories[r]) {
            return false;
        }
        i = i + 1;
    }
    true
}

/// The request that creates the top-level category `category` at position
/// `order`.
pub fn parent_category_request(category: &CategoryHierarchyItem, order: i64) -> (r:
    CreateCategoryRequest)
    ensures
        r.name@ == category.name@,
        opt_view(r.description) == opt_view(category.description),
        r.is_income == category.is_income,
        r.exclude_from_budget == category.exclude_from_budget,
        r.exclude_from_totals == category.exclude_from_totals,
        r.is_group == Some(category.children@.len() > 0),
        r.group_id is None,
        r.order == Some(order),
{
    CreateCategoryRequest {
        name: category.name.clone(),
        description: clone_opt_string(&category.description),
        is_income: category.is_income,
        exclude_from_budget: category.exclude_from_budget,
        exclude_from_totals: category.exclude_from_totals,
        is_group: Some(category.children.len() > 0),
        group_id: None,
        order: Some(order),
    }
}

/// The request that creates `child` inside the group `parent_id` at
/// position `order`.
pub fn child_category_request(child: &ChildCategoryHierarchyItem, parent_id: i64, order: i64) -> (r:
    CreateCategoryRequest)
    ensures
        r.name@ == child.name@,
        opt_view(r.description) == opt_view(child.description),
        r.is_income is None,
        r.exclude_from_budget is None,
        r.exclude_from_totals is None,
        r.is_group == Some(false),
        r.group_id == Some(parent_id),
        r.order == Some(order),
{
    CreateCategoryRequest {
        name: child.name.clone(),
        description: clone_opt_string(&child.description),
        is_income: None,
        exclude_from_budget: None,
        exclude_from_totals: None,
        is_group: Some(false),
        group_id: Some(parent_id),
        order: Some(order),
    }
}

pub fn clone_opt_string(o: &Option<String>) -> (r: Option<String>)
    ensures
        opt_view(r) == opt_view(*o),
{
    match o {
        Some(s) => Some(s.clone()),
        None => None,
    }
}

/// Whether the positions of the existing categories and of their children
/// fit in an `i64`, as their orders are compared with them.
fn positions_fit(existing_categories: &[CategoryDto]) -> (r: bool)
    ensures
        r == (existing_categories@.len() <= i64::MAX && forall|i: int|
            0 <= i < existing_categories@.len() ==> (#[trigger] existing_categories@[i]).children@.len()
                <= i64::MAX),
{
    if existing_categories.len() as u64 > 9_223_372_036_854_775_807u64 {
        return false;
    }
    let mut i: usize = 0;
    while i < existing_categories.len()
        invariant
            i <= existing_categories@.len() <= i64::MAX,
            forall|k: int|
                0 <= k < i ==> (#[trigger] existing_categories@[k]).children@.len() <= i64::MAX,
        decreases existing_categories@.len() - i,
    {
        if existing_categories[i].children.len() as u64 > 9_223_372_036_854_775_807u64 {
            return false;
        }
        i = i + 1;
    }
    true
}

/// `prefix` followed by `name` in quotes and then `suffix`.
fn quoted(prefix: &str, name: &str, suffix: &str) -> (s: String)
    ensures
        s@ == prefix@ + "'"@ + name@ + "'"@ + suffix@,
{
    let mut s = prefix.to_string();
    append_str(&mut s, "'");
    append_str(&mut s, name);
    append_str(&mut s, "'");
    append_str(&mut s, suffix);
    s
}

/// The context of a failed deletion of the existing category `name`.
pub open spec fn delete_failure_context(name: Seq<char>, id: i64) -> Seq<char> {
    "failed to delete existing Lunch Money category '"@ + name + "' (id="@ + signed_decimal(
        id as int,
    ) + ")"@
}

/// The context of a failed creation of the requested category `name`.
pub open spec fn create_failure_context(name: Seq<char>) -> Seq<char> {
    "failed to create Lunch Money category '"@ + name + "'"@
}

/// The context of a failed creation of the requested child category `name`.
pub open spec fn create_child_failure_context(name: Seq<char>) -> Seq<char> {
    "failed to create Lunch Money child category '"@ + name + "'"@
}

/// Whether `context` tells why replacing the hierarchy with `categories`
/// failed: fetching the existing categories, deleting one of them, or
/// creating one of the requested categories or children.
pub open spec fn replace_failure_context(
    context: Seq<char>,
    categories: Seq<CategoryHierarchyItem>,
) -> bool {
    ||| context == "failed to fetch existing Lunch Money categories"@
    ||| exists|name: Seq<char>, id: i64| context == #[trigger] delete_failure_context(name, id)
    ||| exists|i: int|
        0 <= i < categories.len() && context == create_failure_context(
            #[trigger] categories[i].name@,
        )
    ||| exists|i: int, j: int|
        0 <= i < categories.len() && 0 <= j < categories[i].children@.len() && context
            == create_child_failure_context(#[trigger] categories[i].children@[j].name@)
}

/// Whether `request` is `parent_category_request(item, order)`.
pub open spec fn is_parent_request(
    request: CreateCategoryRequest,
    item: CategoryHierarchyItem,
    order: int,
) -> bool {
    &&& request.name@ == item.name@
    &&& opt_view(request.description) == opt_view(item.description)
    &&& request.is_income == item.is_income
    &&& request.exclude_from_budget == item.exclude_from_budget
    &&& request.exclude_from_totals == item.exclude_from_totals
    &&& request.is_group == Some(item.children@.len() > 0)
    &&& request.group_id is None
    &&& request.order == Some(order as i64)
}

/// Whether `request` is `child_category_request(child, parent_id, order)`.
pub open spec fn is_child_request(
    request: CreateCategoryRequest,
    child: ChildCategoryHierarchyItem,
    parent_id: i64,
    order: int,
) -> bool {
    &&& request.name@ == child.name@
    &&& opt_view(request.description) == opt_view(child.description)
    &&& request.is_income is None
    &&& request.exclude_from_budget is None
    &&& request.exclude_from_totals is None
    &&& request.is_group == Some(false)
    &&& request.group_id == Some(parent_id)
    &&& request.order == Some(order as i64)
}

/// The request of a create call.
pub open spec fn create_request_of(c: ApiCall) -> CreateCategoryRequest {
    c->CreateCategory_0
}

/// What a create call was answered.
pub open spec fn create_answer(c: ApiCall) -> Result<CategoryDto, ApiError> {
    c->CreateCategory_1
}

/// Whether `kids` create the first `n` children of `item` in the group
/// `parent_id`, in order, each at its position, each with success.
pub open spec fn children_created(
    item: CategoryHierarchyItem,
    parent_id: i64,
    kids: Seq<ApiCall>,
    n: int,
) -> bool {
    &&& kids.len() == n
    &&& forall|c: int|
        #![trigger kids[c]]
        0 <= c < n ==> kids[c] is CreateCategory && is_child_request(
            create_request_of(kids[c]),
            item.children@[c],
            parent_id,
            c,
        ) && create_answer(kids[c]) is Ok
}

/// Whether `c` creates the category `item` at `order`.
pub open spec fn creates_parent(c: ApiCall, item: CategoryHierarchyItem, order: int) -> bool {
    c is CreateCategory && is_parent_request(create_request_of(c), item, order)
}

/// Whether `run` created `item` at `order` and then all its children in
/// it, each with success.
pub open spec fn category_created(item: CategoryHierarchyItem, order: int, run: Seq<ApiCall>) -> bool {
    &&& run.len() >= 1
    &&& creates_parent(run[0], item, order)
    &&& create_answer(run[0]) is Ok
    &&& children_created(
        item,
        create_answer(run[0])->Ok_0.id,
        run.drop_first(),
        item.children@.len() as int,
    )
}

/// Whether `run` failed to create `item` at `order`, with `cause` and the
/// error context `context`: the request for the category itself failed,
/// or it succeeded, some children were created and the next one failed.
pub open spec fn category_failed(
    item: CategoryHierarchyItem,
    order: int,
    run: Seq<ApiCall>,
    context: Seq<char>,
    cause: ApiError,
) -> bool {
    &&& run.len() >= 1
    &&& creates_parent(run[0], item, order)
    &&& {
        ||| run.len() == 1 && create_answer(run[0]) == Err::<CategoryDto, ApiError>(cause)
            && context == create_failure_context(item.name@)
        ||| {
            let id = create_answer(run[0])->Ok_0.id;
            let c = run.len() - 2;
            &&& create_answer(run[0]) is Ok
            &&& 2 <= run.len() <= item.children@.len() + 1
            &&& children_created(item, id, run.subrange(1, run.len() - 1), c)
            &&& run.last() is CreateCategory
            &&& is_child_request(create_request_of(run.last()), item.children@[c], id, c)
            &&& create_answer(run.last()) == Err::<CategoryDto, ApiError>(cause)
            &&& context == create_child_failure_context(item.children@[c].name@)
        }
    }
}

/// Whether `dels` delete the first `n` existing categories, in order,
/// each with success.
pub open spec fn categories_deleted(existing: Seq<CategoryDto>, dels: Seq<ApiCall>, n: int) -> bool {
    &&& dels.len() == n
    &&& forall|i: int|
        #![trigger dels[i]]
        0 <= i < n ==> dels[i] is DeleteCategory && dels[i]->DeleteCategory_0 == existing[i].id
            && dels[i]->DeleteCategory_1 is Ok
}

/// Whether the existing hierarchy is kept: its positions fit an `i64` and
/// it already is the requested one.
pub open spec fn hierarchy_kept(
    existing: Seq<CategoryDto>,
    categories: Seq<CategoryHierarchyItem>,
) -> bool {
    &&& existing.len() <= i64::MAX
    &&& forall|i: int| 0 <= i < existing.len() ==> (#[trigger] existing[i]).children@.len() <= i64::MAX
    &&& spec_category_hierarchy_matches_request(existing, categories)
}

/// Whether `rest` are the calls of rebuilding the hierarchy and `r` the
/// result: every existing category deleted in order, then every requested
/// category created in order, each group followed by its children
/// (`category_created`); the first failure ends it, with no call after
/// it, in an `Api` error naming what failed.
pub open spec fn rebuilt(
    existing: Seq<CategoryDto>,
    categories: Seq<CategoryHierarchyItem>,
    rest: Seq<ApiCall>,
    r: Result<(), LunchMoneyError>,
) -> bool {
    let n = existing.len() as int;
    match r {
        Ok(()) => categories_deleted(existing, rest.take(n), n) && exists|parts: Seq<Seq<ApiCall>>|
            {
                &&& parts.len() == categories.len()
                &&& forall|o: int|
                    0 <= o < parts.len() ==> #[trigger] category_created(categories[o], o, parts[o])
                &&& rest == rest.take(n) + #[trigger] concat_runs(parts)
            },
        Err(LunchMoneyError::Api { context, cause }) => {
            ||| exists|i: int|
                {
                    &&& 0 <= i < n
                    &&& rest.len() == i + 1
                    &&& categories_deleted(existing, #[trigger] rest.take(i), i)
                    &&& rest[i] == ApiCall::DeleteCategory(existing[i].id, Err(cause))
                    &&& context@ == delete_failure_context(existing[i].name@, existing[i].id)
                }
            ||| categories_deleted(existing, rest.take(n), n) && exists|
                parts: Seq<Seq<ApiCall>>,
                last: Seq<ApiCall>,
            |
                #![trigger concat_runs(parts), category_failed(categories[parts.len() as int], parts.len() as int, last, context@, cause)]
                {
                    &&& parts.len() < categories.len()
                    &&& forall|o: int|
                        0 <= o < parts.len() ==> #[trigger] category_created(
                            categories[o],
                            o,
                            parts[o],
                        )
                    &&& category_failed(
                        categories[parts.len() as int],
                        parts.len() as int,
                        last,
                        context@,
                        cause,
                    )
                    &&& rest == rest.take(n) + concat_runs(parts) + last
                }
        },
        Err(_) => false,
    }
}

/// Whether `made` are the calls of replacing the hierarchy with
/// `categories` and `r` the result: first the existing categories are
/// fetched; a failed fetch ends it in an `Api` error, and a kept hierarchy
/// gives `Ok`, both with no further call; otherwise it is rebuilt.
pub open spec fn replaced(
    categories: Seq<CategoryHierarchyItem>,
    made: Seq<ApiCall>,
    r: Result<(), LunchMoneyError>,
) -> bool {
    &&& made.len() >= 1
    &&& made[0] is GetAllCategories
    &&& match made[0]->GetAllCategories_0 {
        Err(cause) => made.len() == 1 && (r matches Err(LunchMoneyError::Api { context, cause: c })
            && context@ == "failed to fetch existing Lunch Money categories"@ && c == cause),
        Ok(existing) => if hierarchy_kept(existing@, categories) {
            made.len() == 1 && r is Ok
        } else {
            rebuilt(existing@, categories, made.drop_first(), r)
        },
    }
}

/// A hierarchy that already is the requested one is left alone: after the
/// fetch of the existing categories no category is deleted or created.
pub proof fn kept_hierarchy_makes_no_change(
    categories: Seq<CategoryHierarchyItem>,
    made: Seq<ApiCall>,
    r: Result<(), LunchMoneyError>,
    existing: Vec<CategoryDto>,
)
    requires
        replaced(categories, made, r),
        made[0] == ApiCall::GetAllCategories(Ok(existing)),
        hierarchy_kept(existing@, categories),
    ensures
        made.len() == 1,
        r is Ok,
{
}

proof fn lemma_runs_only_create(parts: Seq<Seq<ApiCall>>)
    requires
        forall|k: int, j: int|
            0 <= k < parts.len() && 0 <= j < parts[k].len() ==> (#[trigger] parts[k][j]) is CreateCategory,
    ensures
        forall|i: int|
            0 <= i < concat_runs(parts).len() ==> (#[trigger] concat_runs(parts)[i]) is CreateCategory,
    decreases parts.len(),
{
    if parts.len() > 0 {
        let init = parts.drop_last();
        assert forall|k: int, j: int|
            0 <= k < init.len() && 0 <= j < init[k].len() implies (#[trigger] init[k][j]) is CreateCategory by {
            assert(init[k] == parts[k]);
            assert(parts[k][j] is CreateCategory);
        }
        lemma_runs_only_create(init);
        assert forall|i: int|
            0 <= i < concat_runs(parts).len() implies (#[trigger] concat_runs(parts)[i]) is CreateCategory by {
            let a = concat_runs(init);
            if i >= a.len() {
                assert(parts.last()[i - a.len()] is CreateCategory);
            }
        }
    }
}

proof fn lemma_created_run_only_create(item: CategoryHierarchyItem, order: int, run: Seq<ApiCall>)
    requires
        category_created(item, order, run),
    ensures
        forall|j: int| 0 <= j < run.len() ==> (#[trigger] run[j]) is CreateCategory,
{
    assert forall|j: int| 0 <= j < run.len() implies (#[trigger] run[j]) is CreateCategory by {
        if j > 0 {
            assert(run[j] == run.drop_first()[j - 1]);
        }
    }
}

/// Once deleting an existing category fails, nothing else is sent: no
/// further category is deleted and none is created, and the replacement
/// fails.
pub proof fn failed_delete_ends_replacement(
    categories: Seq<CategoryHierarchyItem>,
    made: Seq<ApiCall>,
    r: Result<(), LunchMoneyError>,
    k: int,
)
    requires
        replaced(categories, made, r),
        0 <= k < made.len(),
        made[k] is DeleteCategory,
        made[k]->DeleteCategory_1 is Err,
    ensures
        k == made.len() - 1,
        r is Err,
{
    let existing = made[0]->GetAllCategories_0->Ok_0;
    let rest = made.drop_first();
    let n = existing@.len() as int;
    assert(k >= 1);
    assert(made.len() > 1);
    assert(rest[k - 1] == made[k]);
    assert(rebuilt(existing@, categories, rest, r));
    match r {
        Ok(()) => {
            assert(rest.take(n).len() == n);
            let parts = choose|parts: Seq<Seq<ApiCall>>|
                {
                    &&& parts.len() == categories.len()
                    &&& forall|o: int|
                        0 <= o < parts.len() ==> #[trigger] category_created(categories[o], o, parts[o])
                    &&& rest == rest.take(n) + #[trigger] concat_runs(parts)
                };
            if k - 1 < n {
                assert(rest.take(n)[k - 1] == rest[k - 1]);
            } else {
                assert forall|o: int, j: int|
                    0 <= o < parts.len() && 0 <= j < parts[o].len() implies (#[trigger] parts[o][j]) is CreateCategory by {
                    lemma_created_run_only_create(categories[o], o, parts[o]);
                }
                lemma_runs_only_create(parts);
                let c = concat_runs(parts);
                assert(rest.take(n).len() == n);
                assert((rest.take(n) + c)[k - 1] == c[k - 1 - n]);
                assert(rest[k - 1] == c[k - 1 - n]);
            }
        },
        Err(LunchMoneyError::Api { context, cause }) => {
            if exists|i: int|
                {
                    &&& 0 <= i < n
                    &&& rest.len() == i + 1
                    &&& categories_deleted(existing@, #[trigger] rest.take(i), i)
                    &&& rest[i] == ApiCall::DeleteCategory(existing@[i].id, Err(cause))
                    &&& context@ == delete_failure_context(existing@[i].name@, existing@[i].id)
                } {
                let i = choose|i: int|
                    {
                        &&& 0 <= i < n
                        &&& rest.len() == i + 1
                        &&& categories_deleted(existing@, #[trigger] rest.take(i), i)
                        &&& rest[i] == ApiCall::DeleteCategory(existing@[i].id, Err(cause))
                        &&& context@ == delete_failure_context(existing@[i].name@, existing@[i].id)
                    };
                if k - 1 < i {
                    assert(rest.take(i)[k - 1] == rest[k - 1]);
                }
            } else {
                let (parts, last) = choose|parts: Seq<Seq<ApiCall>>, last: Seq<ApiCall>|
                    #![trigger concat_runs(parts), category_failed(categories[parts.len() as int], parts.len() as int, last, context@, cause)]
                    {
                        &&& parts.len() < categories.len()
                        &&& forall|o: int|
                            0 <= o < parts.len() ==> #[trigger] category_created(categories[o], o, parts[o])
                        &&& category_failed(categories[parts.len() as int], parts.len() as int, last, context@, cause)
                        &&& rest == rest.take(n) + concat_runs(parts) + last
                    };
                if k - 1 < n {
                    assert(rest.take(n)[k - 1] == rest[k - 1]);
                } else {
                    assert forall|o: int, j: int|
                        0 <= o < parts.len() && 0 <= j < parts[o].len() implies (#[trigger] parts[o][j]) is CreateCategory by {
                        lemma_created_run_only_create(categories[o], o, parts[o]);
                    }
                    lemma_runs_only_create(parts);
                    let c = concat_runs(parts);
                    if k - 1 - n < c.len() {
                        assert(rest[k - 1] == c[k - 1 - n]);
                    } else {
                        let j = k - 1 - n - c.len();
                        assert(rest[k - 1] == last[j]);
                        if j > 0 {
                            if j < last.len() - 1 {
                                assert(last.subrange(1, last.len() - 1)[j - 1] == last[j]);
                            }
                        }
                    }
                }
            }
        },
        Err(_) => {},
    }
}

/// Replaces the category hierarchy of an account's budget.
pub trait LunchMoneyCategoryHierarchyCreationService {
    /// Whether `made` and `r` are the calls and the result of
    /// `replace_category_hierarchy` for `categories`. The trait admits every
    /// run; implementations state theirs in their own contracts.
    closed spec fn replace_answer(
        &self,
        categories: Seq<CategoryHierarchyItem>,
        made: Seq<ApiCall>,
        r: Result<(), LunchMoneyError>,
    ) -> bool {
        true
    }

    fn replace_category_hierarchy(
        &self,
        api_client: &mut Box<dyn LunchMoneyApi>,
        categories: &[CategoryHierarchyItem],
    ) -> (r: Result<(), LunchMoneyError>)
        ensures
            exists|made: Seq<ApiCall>|
                final(api_client).calls() == old(api_client).calls() + made
                    && #[trigger] self.replace_answer(categories@, made, r),
    ;
}

/// Leaves the hierarchy alone when it already is the requested one;
/// otherwise deletes every existing top-level category and creates the
/// requested ones in order, each group followed by its children.
pub struct DefaultLunchMoneyCategoryHierarchyCreationService;

impl LunchMoneyCategoryHierarchyCreationService for DefaultLunchMoneyCategoryHierarchyCreationService {
    fn replace_category_hierarchy(
        &self,
        api_client: &mut Box<dyn LunchMoneyApi>,
        categories: &[CategoryHierarchyItem],
    ) -> (r: Result<(), LunchMoneyError>)
        ensures
            exists|made: Seq<ApiCall>|
                final(api_client).calls() == old(api_client).calls() + made
                    && #[trigger] replaced(categories@, made, r),
            r matches Err(e) ==> (e matches LunchMoneyError::Api { context, .. }
                && replace_failure_context(context@, categories@)),
    {
        let ghost before = api_client.calls();
        let answer = api_client.get_all_categories();
        let ghost fetch = ApiCall::GetAllCategories(answer);
        let ghost head: Seq<ApiCall> = seq![fetch];
        assert(api_client.calls() =~= before + head);
        let existing = match answer {
            Ok(c) => c,
            Err(cause) => {
                let r = Err(
                    LunchMoneyError::api("failed to fetch existing Lunch Money categories", cause),
                );
                assert(replaced(categories@, head, r));
                assert(self.replace_answer(categories@, head, r));
                return r;
            },
        };
        assert(head[0]->GetAllCategories_0 == Ok::<Vec<CategoryDto>, ApiError>(existing));
        if positions_fit(existing.as_slice()) && category_hierarchy_matches_request(
            existing.as_slice(),
            categories,
        ) {
            assert(hierarchy_kept(existing@, categories@));
            assert(replaced(categories@, head, Ok(())));
            assert(self.replace_answer(categories@, head, Ok(())));
            return Ok(());
        }
        assert(!hierarchy_kept(existing@, categories@));
        let ghost n = existing@.len() as int;
        let ghost mut dels: Seq<ApiCall> = Seq::empty();
        let mut i: usize = 0;
        while i < existing.len()
            invariant
                before == old(api_client).calls(),
                i <= existing@.len(),
                n == existing@.len(),
                api_client.calls() == before + head + dels,
                categories_deleted(existing@, dels, i as int),
                head == seq![fetch],
                fetch == ApiCall::GetAllCategories(Ok::<Vec<CategoryDto>, ApiError>(existing)),
                !hierarchy_kept(existing@, categories@),
            decreases existing@.len() - i,
        {
            let category = &existing[i];
            let deleted = api_client.delete_category(category.id);
            let ghost call = ApiCall::DeleteCategory(category.id, deleted);
            assert(api_client.calls() =~= before + head + dels.push(call));
            match deleted {
                Ok(unit) => {
                    proof {
                        dels = dels.push(call);
                    }
                },
                Err(cause) => {
                    let mut suffix = " (id=".to_string();
                    let id = i64_to_decimal(category.id);
                    append_str(&mut suffix, id.as_str());
                    append_str(&mut suffix, ")");
                    let context = quoted(
                        "failed to delete existing Lunch Money category ",
                        category.name.as_str(),
                        suffix.as_str(),
                    );
                    proof {
                        reveal_strlit("failed to delete existing Lunch Money category ");
                        reveal_strlit("failed to delete existing Lunch Money category '");
                        reveal_strlit("'");
                        reveal_strlit("' (id=");
                        reveal_strlit(" (id=");
                        assert(context@ =~= delete_failure_context(category.name@, category.id));
                    }
                    let ghost c0 = cause;
                    let ghost cx = context@;
                    let r = Err(LunchMoneyError::Api { context, cause });
                    let ghost rest = dels.push(call);
                    assert(rest.take(i as int) =~= dels);
                    assert(*category == existing@[i as int]);
                    assert(rest[i as int] == ApiCall::DeleteCategory(existing@[i as int].id, Err(c0)));
                    assert(rebuilt(existing@, categories@, rest, r));
                    assert((head + rest).drop_first() =~= rest);
                    assert((head + rest)[0] == fetch);
                    assert(replaced(categories@, head + rest, r));
                    assert(self.replace_answer(categories@, head + rest, r));
                    assert(api_client.calls() =~= before + (head + rest));
                    return r;
                },
            }
            i = i + 1;
        }
        let ghost mut parts: Seq<Seq<ApiCall>> = Seq::empty();
        let mut order: usize = 0;
        while order < categories.len()
            invariant
                before == old(api_client).calls(),
                order <= categories@.len(),
                n == existing@.len(),
                categories_deleted(existing@, dels, n),
                head == seq![fetch],
                fetch == ApiCall::GetAllCategories(Ok::<Vec<CategoryDto>, ApiError>(existing)),
                !hierarchy_kept(existing@, categories@),
                api_client.calls() == before + head + dels + concat_runs(parts),
                parts.len() == order,
                forall|o: int|
                    0 <= o < order ==> #[trigger] category_created(categories@[o], o, parts[o]),
            decreases categories@.len() - order,
        {
            let category = &categories[order];
            assert(*category == categories@[order as int]);
            let request = parent_category_request(category, order as i64);
            assert(is_parent_request(request, categories@[order as int], order as int));
            let created_answer = api_client.create_category(&request);
            let ghost first = ApiCall::CreateCategory(request, created_answer);
            let ghost mut run: Seq<ApiCall> = seq![first];
            assert(api_client.calls() =~= before + head + dels + concat_runs(parts) + run);
            assert(creates_parent(first, categories@[order as int], order as int));
            let created = match created_answer {
                Ok(c) => c,
                Err(cause) => {
                    let context = quoted(
                        "failed to create Lunch Money category ",
                        category.name.as_str(),
                        "",
                    );
                    proof {
                        reveal_strlit("failed to create Lunch Money category ");
                        reveal_strlit("failed to create Lunch Money category '");
                        reveal_strlit("'");
                        reveal_strlit("");
                        assert(context@ =~= create_failure_context(categories@[order as int].name@));
                    }
                    let ghost c0 = cause;
                    let ghost cx = context@;
                    let r = Err(LunchMoneyError::Api { context, cause });
                    proof {
                        assert(category_failed(categories@[parts.len() as int], parts.len() as int, run, cx, c0));
                        let rest = dels + concat_runs(parts) + run;
                        assert(rest.take(n) =~= dels);
                        assert(rest =~= rest.take(n) + concat_runs(parts) + run);
                        assert(r matches Err(LunchMoneyError::Api { context: x, cause: y }) && x@ == cx && y == c0);
                        assert(rebuilt(existing@, categories@, rest, r));
                        assert((head + rest).drop_first() =~= rest);
                        assert((head + rest)[0] == fetch);
                        assert(replaced(categories@, head + rest, r));
                        assert(self.replace_answer(categories@, head + rest, r));
                        assert(api_client.calls() =~= before + (head + rest));
                    }
                    return r;
                },
            };
            let mut child_order: usize = 0;
            while child_order < category.children.len()
                invariant
                    before == old(api_client).calls(),
                    child_order <= category.children@.len(),
                    order < categories@.len(),
                    *category == categories@[order as int],
                    n == existing@.len(),
                    categories_deleted(existing@, dels, n),
                    head == seq![fetch],
                    fetch == ApiCall::GetAllCategories(Ok::<Vec<CategoryDto>, ApiError>(existing)),
                    !hierarchy_kept(existing@, categories@),
                    parts.len() == order,
                    forall|o: int|
                        0 <= o < order ==> #[trigger] category_created(categories@[o], o, parts[o]),
                    api_client.calls() == before + head + dels + concat_runs(parts) + run,
                    run.len() == child_order + 1,
                    run[0] == first,
                    creates_parent(first, categories@[order as int], order as int),
                    create_answer(first) == Ok::<CategoryDto, ApiError>(created),
                    children_created(*category, created.id, run.drop_first(), child_order as int),
                decreases category.children@.len() - child_order,
            {
                let child = &category.children[child_order];
                let child_request = child_category_request(child, created.id, child_order as i64);
                assert(is_child_request(
                    child_request,
                    category.children@[child_order as int],
                    created.id,
                    child_order as int,
                ));
                let child_answer = api_client.create_category(&child_request);
                let ghost call = ApiCall::CreateCategory(child_request, child_answer);
                proof {
                    assert(api_client.calls() =~= before + head + dels + concat_runs(parts) + run.push(call));
                    assert(run.push(call).drop_first() =~= run.drop_first().push(call));
                    assert(run.push(call).subrange(1, run.len() as int) =~= run.drop_first());
                    run = run.push(call);
                }
                match child_answer {
                    Ok(c) => {},
                    Err(cause) => {
                        let context = quoted(
                            "failed to create Lunch Money child category ",
                            child.name.as_str(),
                            "",
                        );
                        proof {
                            reveal_strlit("failed to create Lunch Money child category ");
                            reveal_strlit("failed to create Lunch Money child category '");
                            reveal_strlit("'");
                            reveal_strlit("");
                            assert(context@ =~= create_child_failure_context(
                                categories@[order as int].children@[child_order as int].name@,
                            ));
                        }
                        let ghost c0 = cause;
                        let ghost cx = context@;
                        let r = Err(LunchMoneyError::Api { context, cause });
                        proof {
                            let kid = run.len() - 2;
                            assert(run.subrange(1, run.len() - 1) =~= run.drop_first().drop_last());
                            assert(children_created(*category, created.id, run.subrange(1, run.len() - 1), kid));
                            assert(category_failed(categories@[parts.len() as int], parts.len() as int, run, cx, c0));
                            let rest = dels + concat_runs(parts) + run;
                            assert(rest.take(n) =~= dels);
                            assert(rest =~= rest.take(n) + concat_runs(parts) + run);
                            assert(r matches Err(LunchMoneyError::Api { context: x, cause: y }) && x@ == cx && y == c0);
                            assert(rebuilt(existing@, categories@, rest, r));
                            assert((head + rest).drop_first() =~= rest);
                            assert((head + rest)[0] == fetch);
                            assert(replaced(categories@, head + rest, r));
                            assert(self.replace_answer(categories@, head + rest, r));
                            assert(api_client.calls() =~= before + (head + rest));
                        }
                        return r;
                    },
                }
                child_order = child_order + 1;
            }
            assert(category_created(categories@[order as int], order as int, run));
            proof {
                lemma_concat_runs_push(parts, run);
                parts = parts.push(run);
                assert(api_client.calls() =~= before + head + dels + concat_runs(parts));
            }
            order = order + 1;
        }
        proof {
            let rest = dels + concat_runs(parts);
            assert(rest.take(n) =~= dels);
            assert(rest =~= rest.take(n) + concat_runs(parts));
            assert(rebuilt(existing@, categories@, rest, Ok(())));
            assert((head + rest).drop_first() =~= rest);
            assert(replaced(categories@, head + rest, Ok(())));
            assert(self.replace_answer(categories@, head + rest, Ok(())));
            assert(api_client.calls() =~= before + (head + rest));
        }
        Ok(())
    }
}

} // verus!
