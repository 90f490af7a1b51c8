//! The order in which the files of a directory are read: by their names,
//! in natural order, so that `2.csv` comes before `10.csv`.
use vstd::prelude::*;
use crate::natural::{natural_compare, natural_order};
use crate::text::string_views;

verus! {

/// `sorted` with `name` put after the last of its names that does not come
/// after `name` in natural order (or first, when all of them do).
pub open spec fn insert_naturally(sorted: Seq<Seq<char>>, name: Seq<char>) -> Seq<Seq<char>>
    decreases sorted.len(),
{
    if sorted.len() == 0 {
        seq![name]
    } else if natural_order(sorted.last(), name) > 0 {
        insert_naturally(sorted.drop_last(), name).push(sorted.last())
    } else {
        sorted.push(name)
    }
}

/// `names` sorted stably by natural order: each name in turn is inserted
/// after the names before it that do not come after it.
pub open spec fn naturally_sorted(names: Seq<Seq<char>>) -> Seq<Seq<char>>
    decreases names.len(),
{
    if names.len() == 0 {
        Seq::empty()
    } else {
        insert_naturally(naturally_sorted(names.drop_last()), names.last())
    }
}

/// Inserting keeps every name already there and adds `name` once.
pub proof fn lemma_insert_naturally_adds(sorted: Seq<Seq<char>>, name: Seq<char>)
    ensures
        insert_naturally(sorted, name).to_multiset() == sorted.to_multiset().insert(name),
    decreases sorted.len(),
{
    broadcast use vstd::seq_lib::group_to_multiset_ensures;

    if sorted.len() == 0 {
        assert(seq![name] =~= Seq::<Seq<char>>::empty().push(name));
    } else if natural_order(sorted.last(), name) > 0 {
        lemma_insert_naturally_adds(sorted.drop_last(), name);
        assert(sorted =~= sorted.drop_last().push(sorted.last()));
        assert(insert_naturally(sorted, name).to_multiset() =~= sorted.to_multiset().insert(name));
    }
}

/// Sorting in natural order keeps every name, as often as it occurs: no
/// file is read twice and none is left out.
pub proof fn naturally_sorted_keeps_every_name(names: Seq<Seq<char>>)
    ensures
        naturally_sorted(names).to_multiset() == names.to_multiset(),
    decreases names.len(),
{
    broadcast use vstd::seq_lib::group_to_multiset_ensures;

    if names.len() > 0 {
        naturally_sorted_keeps_every_name(names.drop_last());
        lemma_insert_naturally_adds(naturally_sorted(names.drop_last()), names.last());
        assert(names =~= names.drop_last().push(names.last()));
    }
}

/// Where `insert_naturally` puts `name` in `sorted`, from position `j` on:
/// every name at or after `j` comes after `name`.
proof fn lemma_insert_step(sorted: Seq<Seq<char>>, name: Seq<char>, j: int)
    requires
        0 < j <= sorted.len(),
        natural_order(sorted[j - 1], name) > 0,
    ensures
        insert_naturally(sorted.take(j), name) + sorted.skip(j) == insert_naturally(
            sorted.take(j - 1),
            name,
        ) + sorted.skip(j - 1),
{
    let t = sorted.take(j);
    assert(t.drop_last() =~= sorted.take(j - 1));
    assert(t.last() == sorted[j - 1]);
    assert(insert_naturally(t, name) == insert_naturally(t.drop_last(), name).push(t.last()));
    assert(insert_naturally(sorted.take(j - 1), name).push(sorted[j - 1]) + sorted.skip(j)
        =~= insert_naturally(sorted.take(j - 1), name) + sorted.skip(j - 1));
}

/// The names in natural order, sorted stably (`sort_by` with
/// `natord::compare`).
pub fn sort_naturally(names: Vec<String>) -> (r: Vec<String>)
    ensures
        string_views(r@) == naturally_sorted(string_views(names@)),
        string_views(r@).to_multiset() == string_views(names@).to_multiset(),
{
    let ghost all = string_views(names@);
    let mut sorted: Vec<String> = Vec::new();
    let n = names.len();
    let mut i: usize = 0;
    while i < n
        invariant
            n == names@.len(),
            all == string_views(names@),
            i <= n,
            string_views(sorted@) == naturally_sorted(all.take(i as int)),
        decreases n - i,
    {
        let name = names[i].clone();
        let ghost s = string_views(sorted@);
        let mut j: usize = sorted.len();
        assert(s.take(j as int) =~= s);
        assert(insert_naturally(s, name@) + s.skip(j as int) =~= insert_naturally(s, name@));
        while j > 0 && natural_compare(sorted[j - 1].as_str(), name.as_str()) > 0
            invariant
                j <= sorted@.len(),
                s == string_views(sorted@),
                insert_naturally(s, name@) == insert_naturally(s.take(j as int), name@) + s.skip(
                    j as int,
                ),
            decreases j,
        {
            proof {
                lemma_insert_step(s, name@, j as int);
            }
            j = j - 1;
        }
        proof {
            let t = s.take(j as int);
            if j > 0 {
                assert(t.last() == s[j - 1]);
                assert(t.drop_last() =~= s.take(j - 1));
            }
            assert(insert_naturally(t, name@) == t.push(name@));
            assert(all.take(i + 1).drop_last() =~= all.take(i as int));
            assert(all.take(i + 1).last() == name@);
        }
        sorted.insert(j, name);
        proof {
            assert(string_views(sorted@) =~= s.take(j as int).push(names@[i as int]@) + s.skip(
                j as int,
            ));
        }
        i = i + 1;
    }
    proof {
        assert(all.take(n as int) =~= all);
        naturally_sorted_keeps_every_name(all);
    }
    sorted
}

} // verus!
