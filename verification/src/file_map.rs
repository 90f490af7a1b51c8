//! A map from strings to strings that is kept in a JSON file; the file is
//! read and written around it, this type holds the entries.
use vstd::prelude::*;
use crate::text::str_eq;

verus! {

/// The entries of `pairs` as a map.
pub open spec fn pairs_map(pairs: Seq<(String, String)>) -> Map<Seq<char>, Seq<char>>
    decreases pairs.len(),
{
    if pairs.len() == 0 {
        Map::empty()
    } else {
        pairs_map(pairs.drop_last()).insert(pairs.last().0@, pairs.last().1@)
    }
}

/// Whether no key occurs twice.
pub open spec fn distinct_keys(pairs: Seq<(String, String)>) -> bool {
    forall|i: int, j: int| 0 <= i < j < pairs.len() ==> (#[trigger] pairs[i]).0@ != (#[trigger] pairs[j]).0@
}

/// With distinct keys, each pair's key maps to its value, and only pairs'
/// keys are in the map.
proof fn lemma_pairs_map(pairs: Seq<(String, String)>)
    requires
        distinct_keys(pairs),
    ensures
        forall|i: int| 0 <= i < pairs.len() ==> pairs_map(pairs).contains_key(#[trigger] pairs[i].0@)
            && pairs_map(pairs)[pairs[i].0@] == pairs[i].1@,
        forall|k: Seq<char>| pairs_map(pairs).contains_key(k) ==> exists|i: int|
            0 <= i < pairs.len() && #[trigger] pairs[i].0@ == k,
    decreases pairs.len(),
{
    if pairs.len() > 0 {
        let q = pairs.drop_last();
        assert(distinct_keys(q)) by {
            assert forall|i: int, j: int| 0 <= i < j < q.len() implies (#[trigger] q[i]).0@
                != (#[trigger] q[j]).0@ by {
                assert(q[i] == pairs[i] && q[j] == pairs[j]);
            }
        }
        lemma_pairs_map(q);
        assert forall|i: int| 0 <= i < pairs.len() implies pairs_map(pairs).contains_key(
            #[trigger] pairs[i].0@,
        ) && pairs_map(pairs)[pairs[i].0@] == pairs[i].1@ by {
            if i < pairs.len() - 1 {
                assert(q[i] == pairs[i]);
                assert(pairs[i].0@ != pairs[pairs.len() - 1].0@);
            }
        }
        assert forall|k: Seq<char>| pairs_map(pairs).contains_key(k) implies exists|i: int|
            0 <= i < pairs.len() && #[trigger] pairs[i].0@ == k by {
            if k != pairs.last().0@ {
                assert(pairs_map(q).contains_key(k));
                let i = choose|i: int| 0 <= i < q.len() && #[trigger] q[i].0@ == k;
                assert(pairs[i] == q[i]);
            } else {
                assert(pairs[pairs.len() - 1].0@ == k);
            }
        }
    }
}

/// A map from strings to strings, stored as JSON in the file at `path`.
pub struct JsonFileMap {
    path: String,
    pairs: Vec<(String, String)>,
}

impl View for JsonFileMap {
    type V = Map<Seq<char>, Seq<char>>;

    closed spec fn view(&self) -> Map<Seq<char>, Seq<char>> {
        pairs_map(self.pairs@)
    }
}

impl JsonFileMap {
    #[verifier::type_invariant]
    closed spec fn inv(self) -> bool {
        distinct_keys(self.pairs@)
    }

    pub closed spec fn spec_path(self) -> Seq<char> {
        self.path@
    }

    /// An empty map kept at `path`.
    pub fn new(path: String) -> (m: Self)
        ensures
            m@ == Map::<Seq<char>, Seq<char>>::empty(),
            m.spec_path() == path@,
    {
        JsonFileMap { path, pairs: Vec::new() }
    }

    /// The file the map is kept in.
    pub fn path(&self) -> (r: &str)
        ensures
            r@ == self.spec_path(),
    {
        self.path.as_str()
    }

    /// The position of `key`, if it has one.
    fn position(&self, key: &str) -> (r: Option<usize>)
        ensures
            match r {
                Some(i) => i < self.pairs@.len() && self.pairs@[i as int].0@ == key@,
                None => !self@.contains_key(key@),
            },
    {
        proof {
            use_type_invariant(self);
            lemma_pairs_map(self.pairs@);
        }
        let mut i: usize = 0;
        while i < self.pairs.len()
            invariant
                i <= self.pairs@.len(),
                forall|k: int| 0 <= k < i ==> (#[trigger] self.pairs@[k]).0@ != key@,
            decreases self.pairs@.len() - i,
        {
            if str_eq(self.pairs[i].0.as_str(), key) {
                return Some(i);
            }
            i = i + 1;
        }
        proof {
            if self@.contains_key(key@) {
                let k = choose|k: int| 0 <= k < self.pairs@.len() && #[trigger] self.pairs@[k].0@ == key@;
                assert(self.pairs@[k].0@ != key@);
            }
        }
        None
    }

    /// The value of `key`, if it has one.
    pub fn get(&self, key: &str) -> (r: Option<&str>)
        ensures
            match r {
                Some(v) => self@.contains_key(key@) && v@ == self@[key@],
                None => !self@.contains_key(key@),
            },
    {
        proof {
            use_type_invariant(self);
            lemma_pairs_map(self.pairs@);
        }
        match self.position(key) {
            Some(i) => Some(self.pairs[i].1.as_str()),
            None => None,
        }
    }

    /// Gives `key` the value `value`; returns the value it had.
    pub fn put(&mut self, key: &str, value: &str) -> (r: Option<String>)
        ensures
            final(self)@ == old(self)@.insert(key@, value@),
            final(self).spec_path() == old(self).spec_path(),
            match r {
                Some(v) => old(self)@.contains_key(key@) && v@ == old(self)@[key@],
                None => !old(self)@.contains_key(key@),
            },
    {
        proof {
            use_type_invariant(&*self);
            lemma_pairs_map(self.pairs@);
        }
        match self.position(key) {
            Some(i) => {
                let ghost before = self.pairs@;
                let previous = self.pairs[i].1.clone();
                let entry = (key.to_string(), value.to_string());
                let mut pairs: Vec<(String, String)> = Vec::new();
                std::mem::swap(&mut pairs, &mut self.pairs);
                pairs.set(i, entry);
                proof {
                    assert(distinct_keys(pairs@)) by {
                        assert forall|a: int, b: int| 0 <= a < b < pairs@.len() implies (
                        #[trigger] pairs@[a]).0@ != (#[trigger] pairs@[b]).0@ by {
                            if a != i && b != i {
                                assert(pairs@[a] == before[a] && pairs@[b] == before[b]);
                            } else if a == i {
                                assert(pairs@[b] == before[b]);
                            } else {
                                assert(pairs@[a] == before[a]);
                            }
                        }
                    }
                    lemma_pairs_map(pairs@);
                    assert(pairs_map(pairs@) =~= pairs_map(before).insert(key@, value@)) by {
                        assert forall|k: Seq<char>| #[trigger] pairs_map(pairs@).contains_key(k)
                            == pairs_map(before).insert(key@, value@).contains_key(k) by {
                            if pairs_map(pairs@).contains_key(k) {
                                let j = choose|j: int| 0 <= j < pairs@.len() && #[trigger] pairs@[j].0@ == k;
                                if j != i {
                                    assert(before[j] == pairs@[j]);
                                }
                            }
                            if pairs_map(before).contains_key(k) && k != key@ {
                                let j = choose|j: int| 0 <= j < before.len() && #[trigger] before[j].0@ == k;
                                assert(pairs@[j] == before[j]);
                            }
                            assert(pairs@[i as int].0@ == key@);
                        }
                        assert forall|k: Seq<char>| #[trigger] pairs_map(pairs@).contains_key(k)
                            implies pairs_map(pairs@)[k] == pairs_map(before).insert(key@, value@)[k] by {
                            let j = choose|j: int| 0 <= j < pairs@.len() && #[trigger] pairs@[j].0@ == k;
                            if j != i {
                                assert(before[j] == pairs@[j]);
                            }
                        }
                    }
                }
                self.pairs = pairs;
                Some(previous)
            },
            None => {
                let ghost before = self.pairs@;
                let mut pairs: Vec<(String, String)> = Vec::new();
                std::mem::swap(&mut pairs, &mut self.pairs);
                pairs.push((key.to_string(), value.to_string()));
                proof {
                    assert(pairs@.drop_last() == before);
                    assert(distinct_keys(pairs@)) by {
                        assert forall|a: int, b: int| 0 <= a < b < pairs@.len() implies (
                        #[trigger] pairs@[a]).0@ != (#[trigger] pairs@[b]).0@ by {
                            if b == pairs@.len() - 1 {
                                assert(pairs@[a] == before[a]);
                                assert(pairs_map(before).contains_key(before[a].0@));
                            } else {
                                assert(pairs@[a] == before[a] && pairs@[b] == before[b]);
                            }
                        }
                    }
                }
                self.pairs = pairs;
                None
            },
        }
    }

    /// The entries, each key once, to write to the file.
    pub fn entries(&self) -> (r: &[(String, String)])
        ensures
            pairs_map(r@) == self@,
            distinct_keys(r@),
    {
        proof {
            use_type_invariant(self);
        }
        self.pairs.as_slice()
    }
}

/// What `put` stores under a key, `get` gives back; every other key keeps
/// its value.
pub proof fn file_map_reads_back_put(
    before: Map<Seq<char>, Seq<char>>,
    key: Seq<char>,
    value: Seq<char>,
    other: Seq<char>,
)
    ensures
        ({
            let after = before.insert(key, value);
            &&& after.contains_key(key) && after[key] == value
            &&& other != key ==> after.contains_key(other) == before.contains_key(other)
                && after[other] == before[other]
        }),
{
}

} // verus!
