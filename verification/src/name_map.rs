//! Maps from names to numeric ids, such as category names to category ids.
use vstd::prelude::*;

verus! {

/// The map that a list of `(name, id)` pairs denotes, later pairs winning.
pub open spec fn map_of(pairs: Seq<(Seq<char>, i64)>) -> Map<Seq<char>, i64>
    decreases pairs.len(),
{
    if pairs.len() == 0 {
        Map::empty()
    } else {
        map_of(pairs.drop_last()).insert(pairs.last().0, pairs.last().1)
    }
}

/// Whether no name occurs twice.
pub open spec fn distinct_names(pairs: Seq<(Seq<char>, i64)>) -> bool {
    forall|i: int, j: int| 0 <= i < j < pairs.len() ==> (#[trigger] pairs[i]).0 != (#[trigger] pairs[j]).0
}

pub open spec fn pair_views(pairs: Seq<(String, i64)>) -> Seq<(Seq<char>, i64)> {
    pairs.map_values(|p: (String, i64)| (p.0@, p.1))
}

/// A map from names to ids.
#[derive(Clone, Debug, PartialEq)]
pub struct NameMap {
    pairs: Vec<(String, i64)>,
}

impl View for NameMap {
    type V = Map<Seq<char>, i64>;

    closed spec fn view(&self) -> Map<Seq<char>, i64> {
        map_of(pair_views(self.pairs@))
    }
}

/// Looking a name up finds the last pair that has it.
proof fn lemma_map_of_last(pairs: Seq<(Seq<char>, i64)>, k: Seq<char>, from: int)
    requires
        0 <= from <= pairs.len(),
        forall|j: int| from <= j < pairs.len() ==> (#[trigger] pairs[j]).0 != k,
    ensures
        from == 0 ==> !map_of(pairs).contains_key(k),
        from > 0 && pairs[from - 1].0 == k ==> map_of(pairs).contains_key(k) && map_of(pairs)[k]
            == pairs[from - 1].1,
        from > 0 && pairs[from - 1].0 != k ==> map_of(pairs).contains_key(k) == map_of(
            pairs.take(from - 1),
        ).contains_key(k) && map_of(pairs)[k] == map_of(pairs.take(from - 1))[k],
    decreases pairs.len(),
{
    if pairs.len() > from {
        let rest = pairs.drop_last();
        assert forall|j: int| from <= j < rest.len() implies (#[trigger] rest[j]).0 != k by {
            assert(rest[j] == pairs[j]);
        }
        lemma_map_of_last(rest, k, from);
        if from > 0 {
            assert(rest.take(from - 1) == pairs.take(from - 1));
            assert(rest[from - 1] == pairs[from - 1]);
        }
    } else if from > 0 {
        assert(pairs.drop_last() == pairs.take(from - 1));
    }
}

impl NameMap {
    /// An empty map.
    pub fn new() -> (m: Self)
        ensures
            m@ == Map::<Seq<char>, i64>::empty(),
    {
        NameMap { pairs: Vec::new() }
    }

    /// The id of `name`, if it has one.
    pub fn get(&self, name: &str) -> (r: Option<i64>)
        ensures
            r == if self@.contains_key(name@) {
                Some(self@[name@])
            } else {
                None::<i64>
            },
    {
        let ghost pv = pair_views(self.pairs@);
        let mut i: usize = self.pairs.len();
        assert(pv.take(pv.len() as int) == pv);
        while i > 0
            invariant
                i <= self.pairs@.len() == pv.len(),
                pv == pair_views(self.pairs@),
                forall|j: int| i <= j < pv.len() ==> (#[trigger] pv[j]).0 != name@,
                map_of(pv).contains_key(name@) == map_of(pv.take(i as int)).contains_key(name@),
                map_of(pv)[name@] == map_of(pv.take(i as int))[name@],
            decreases i,
        {
            proof {
                lemma_map_of_last(pv.take(i as int), name@, i as int);
                assert(pv.take(i as int).take(i - 1) == pv.take(i - 1));
            }
            assert(pv.take(i as int)[i - 1] == pv[i - 1]);
            assert(pv[i - 1] == (self.pairs@[i - 1].0@, self.pairs@[i - 1].1));
            if crate::text::str_eq(self.pairs[i - 1].0.as_str(), name) {
                return Some(self.pairs[i - 1].1);
            }
            i = i - 1;
        }
        proof {
            lemma_map_of_last(pv, name@, 0);
            assert(pv.take(0) == Seq::<(Seq<char>, i64)>::empty());
        }
        None
    }

    /// Whether `name` has an id.
    pub fn contains_key(&self, name: &str) -> (r: bool)
        ensures
            r == self@.contains_key(name@),
    {
        self.get(name).is_some()
    }

    /// Gives `name` the id `id` and returns the id it had.
    pub fn insert(&mut self, name: String, id: i64) -> (r: Option<i64>)
        ensures
            final(self)@ == old(self)@.insert(name@, id),
            r == if old(self)@.contains_key(name@) {
                Some(old(self)@[name@])
            } else {
                None::<i64>
            },
    {
        let previous = self.get(name.as_str());
        let ghost pv = pair_views(self.pairs@);
        self.pairs.push((name, id));
        assert(pair_views(self.pairs@) =~= pv.push((name@, id)));
        assert(pair_views(self.pairs@).drop_last() == pv);
        previous
    }

    /// The map holding the given pairs, later pairs winning.
    pub fn from_pairs(pairs: Vec<(String, i64)>) -> (m: Self)
        ensures
            m@ == map_of(pair_views(pairs@)),
    {
        NameMap { pairs }
    }
}

} // verus!
