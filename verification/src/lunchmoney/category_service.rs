//! The map from category names to ids that transactions' category tags
//! are resolved with.
use vstd::prelude::*;
use crate::lunchmoney::api::{ApiCall, ApiError, LunchMoneyApi, LunchMoneyError};
use crate::lunchmoney::dto::{CategoryDto, ChildCategoryDto};
use crate::name_map::{distinct_names, map_of, pair_views, NameMap};

verus! {

/// The names and ids of children, in order.
pub open spec fn child_entries(children: Seq<ChildCategoryDto>) -> Seq<(Seq<char>, i64)> {
    children.map_values(|c: ChildCategoryDto| (c.name@, c.id))
}

/// The names and ids of categories: each one followed by its children.
pub open spec fn category_entries(categories: Seq<CategoryDto>) -> Seq<(Seq<char>, i64)>
    decreases categories.len(),
{
    if categories.len() == 0 {
        Seq::empty()
    } else {
        category_entries(categories.drop_last()) + seq![
            (categories.last().name@, categories.last().id),
        ] + child_entries(categories.last().children@)
    }
}

/// Entry `j` is the first whose name an earlier entry `i` has.
pub open spec fn first_repeat(entries: Seq<(Seq<char>, i64)>, i: int, j: int) -> bool {
    &&& 0 <= i < j < entries.len()
    &&& entries[i].0 == entries[j].0
    &&& distinct_names(entries.take(j))
}

/// With distinct names, a name is in the map exactly when some entry has
/// it, and maps to that entry's id.
proof fn lemma_map_of_distinct(p: Seq<(Seq<char>, i64)>)
    requires
        distinct_names(p),
    ensures
        forall|i: int| 0 <= i < p.len() ==> map_of(p).contains_key(#[trigger] p[i].0) && map_of(
            p,
        )[p[i].0] == p[i].1,
        forall|x: Seq<char>|
            map_of(p).contains_key(x) ==> exists|i: int| 0 <= i < p.len() && #[trigger] p[i].0 == x,
    decreases p.len(),
{
    if p.len() > 0 {
        let q = p.drop_last();
        assert(distinct_names(q)) by {
            assert forall|i: int, j: int| 0 <= i < j < q.len() implies (#[trigger] q[i]).0
                != (#[trigger] q[j]).0 by {
                assert(q[i] == p[i] && q[j] == p[j]);
            }
        }
        lemma_map_of_distinct(q);
        assert forall|i: int| 0 <= i < p.len() implies map_of(p).contains_key(#[trigger] p[i].0)
            && map_of(p)[p[i].0] == p[i].1 by {
            if i < p.len() - 1 {
                assert(q[i] == p[i]);
                assert(p[i].0 != p[p.len() - 1].0);
            }
        }
        assert forall|x: Seq<char>| map_of(p).contains_key(x) implies exists|i: int|
            0 <= i < p.len() && #[trigger] p[i].0 == x by {
            if x != p.last().0 {
                assert(map_of(q).contains_key(x));
                let i = choose|i: int| 0 <= i < q.len() && #[trigger] q[i].0 == x;
                assert(p[i] == q[i]);
            } else {
                assert(p[p.len() - 1].0 == x);
            }
        }
    }
}

/// The names and ids of categories, flattened as `category_entries` does.
fn flatten_categories(categories: &[CategoryDto]) -> (r: Vec<(String, i64)>)
    ensures
        pair_views(r@) == category_entries(categories@),
{
    let mut r: Vec<(String, i64)> = Vec::new();
    let mut i: usize = 0;
    while i < categories.len()
        invariant
            i <= categories@.len(),
            pair_views(r@) == category_entries(categories@.take(i as int)),
        decreases categories@.len() - i,
    {
        let category = &categories[i];
        let ghost before = pair_views(r@);
        r.push((category.name.clone(), category.id));
        assert(pair_views(r@) =~= before + seq![(category.name@, category.id)]);
        let mut k: usize = 0;
        while k < category.children.len()
            invariant
                k <= category.children@.len(),
                pair_views(r@) == before + seq![(category.name@, category.id)] + child_entries(
                    category.children@.take(k as int),
                ),
            decreases category.children@.len() - k,
        {
            let child = &category.children[k];
            let ghost mid = pair_views(r@);
            r.push((child.name.clone(), child.id));
            assert(child_entries(category.children@.take(k + 1)) =~= child_entries(
                category.children@.take(k as int),
            ).push((child.name@, child.id)));
            assert(pair_views(r@) =~= mid.push((child.name@, child.id)));
            k = k + 1;
        }
        assert(category.children@.take(category.children@.len() as int) =~= category.children@);
        assert(categories@.take(i + 1).drop_last() =~= categories@.take(i as int));
        i = i + 1;
    }
    assert(categories@.take(categories@.len() as int) =~= categories@);
    r
}

/// Whether `r` is the map from every category's and child category's name
/// to its id, or the error naming the first name that occurs twice and both
/// its ids.
pub open spec fn is_name_map_of(categories: Seq<CategoryDto>, r: Result<NameMap, LunchMoneyError>) -> bool {
    &&& (r is Ok <==> distinct_names(category_entries(categories)))
    &&& r matches Ok(m) ==> m@ == map_of(category_entries(categories))
    &&& r matches Err(e) ==> exists|i: int, j: int|
        first_repeat(category_entries(categories), i, j) && (e matches
            LunchMoneyError::DuplicateCategoryName { name, existing_id, id } && name@
            == category_entries(categories)[j].0 && existing_id == category_entries(
            categories,
        )[i].1 && id == category_entries(categories)[j].1)
}

/// The map from every category's and child category's name to its id, or
/// an error naming the first name that occurs twice and both its ids.
pub fn category_name_to_id_map(categories: &[CategoryDto]) -> (r: Result<NameMap, LunchMoneyError>)
    ensures
        is_name_map_of(categories@, r),
{
    let entries = flatten_categories(categories);
    let ghost pv = pair_views(entries@);
    let mut m = NameMap::new();
    let mut k: usize = 0;
    while k < entries.len()
        invariant
            k <= entries@.len() == pv.len(),
            pv == pair_views(entries@),
            pv == category_entries(categories@),
            distinct_names(pv.take(k as int)),
            m@ == map_of(pv.take(k as int)),
        decreases entries@.len() - k,
    {
        let name = entries[k].0.clone();
        let id = entries[k].1;
        assert(pv[k as int] == (name@, id));
        proof {
            lemma_map_of_distinct(pv.take(k as int));
        }
        match m.insert(name, id) {
            Some(existing_id) => {
                let ghost i = choose|i: int| 0 <= i < k && #[trigger] pv.take(k as int)[i].0 == pv[k as int].0;
                proof {
                    assert(pv.take(k as int)[i] == pv[i]);
                    assert(map_of(pv.take(k as int))[pv[i].0] == pv[i].1);
                    assert(first_repeat(pv, i, k as int));
                }
                let name = entries[k].0.clone();
                return Err(LunchMoneyError::DuplicateCategoryName { name, existing_id, id });
            },
            None => {
                proof {
                    assert(pv.take(k + 1).drop_last() =~= pv.take(k as int));
                    assert forall|a: int, b: int| 0 <= a < b < k + 1 implies (#[trigger] pv.take(
                        k + 1,
                    )[a]).0 != (#[trigger] pv.take(k + 1)[b]).0 by {
                        assert(pv.take(k + 1)[a] == pv[a]);
                        assert(pv.take(k + 1)[b] == pv[b]);
                        if b == k {
                            assert(pv.take(k as int)[a] == pv[a]);
                        } else {
                            assert(pv.take(k as int)[a] == pv[a]);
                            assert(pv.take(k as int)[b] == pv[b]);
                        }
                    }
                }
            },
        }
        k = k + 1;
    }
    assert(pv.take(k as int) =~= pv);
    proof {
        if !distinct_names(pv) {
            assert(false);
        }
    }
    Ok(m)
}

/// Resolves category names to ids.
pub trait LunchMoneyCategoriesService {
    fn get_category_name_to_id_map(&self, api_client: &mut Box<dyn LunchMoneyApi>) -> Result<
        NameMap,
        LunchMoneyError,
    >;
}

/// Whether `r` is what building the name-to-id map gives for `answer`, an
/// answer of `GET /categories`: `category_name_to_id_map` of the
/// categories, or the failed call in an `Api` error.
pub open spec fn category_map_of_answer(
    answer: Result<Vec<CategoryDto>, ApiError>,
    r: Result<NameMap, LunchMoneyError>,
) -> bool {
    match answer {
        Ok(categories) => is_name_map_of(categories@, r),
        Err(cause) => r matches Err(LunchMoneyError::Api { context, cause: c }) && context@
            == "failed to fetch Lunch Money categories"@ && c == cause,
    }
}

/// Fetches the categories and builds `category_name_to_id_map` of them.
pub struct DefaultLunchMoneyCategoriesService;

impl LunchMoneyCategoriesService for DefaultLunchMoneyCategoriesService {
    /// Makes one call, `GET /categories`, and builds the map of its answer.
    fn get_category_name_to_id_map(&self, api_client: &mut Box<dyn LunchMoneyApi>) -> (r: Result<
        NameMap,
        LunchMoneyError,
    >)
        ensures
            exists|answer: Result<Vec<CategoryDto>, ApiError>|
                final(api_client).calls() == old(api_client).calls().push(ApiCall::GetAllCategories(answer))
                    && #[trigger] category_map_of_answer(answer, r),
    {
        let answer = api_client.get_all_categories();
        let ghost got = answer;
        let categories = match answer {
            Ok(c) => c,
            Err(cause) => {
                let r = Err(LunchMoneyError::api("failed to fetch Lunch Money categories", cause));
                assert(category_map_of_answer(got, r));
                return r;
            },
        };
        let r = category_name_to_id_map(categories.as_slice());
        assert(category_map_of_answer(got, r));
        r
    }
}

} // verus!
