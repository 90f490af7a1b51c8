//! A map from keys to values of several types, read back through typed
//! accessors.
use vstd::prelude::*;
use std::collections::HashMap;
use std::hash::Hash;
use vstd::std_specs::hash::obeys_key_model;
use std::fmt::Debug;
use crate::text::{append_str, decimal, join, lemma_lex_total, lemma_lex_transitive, lex_lt, str_lt, u64_to_decimal};

verus! {

/// A stored value together with its type.
#[derive(Clone, Debug, PartialEq)]
pub enum Slot {
    Text(String),
    Int(i64),
    Bool(bool),
}

/// The types an [`HMap`] can hold, and how each is kept in a [`Slot`].
pub trait SlotValue: Sized {
    /// Whether `s` holds a value of this type.
    spec fn holds(s: Slot) -> bool;

    /// The value of this type that `s` holds.
    spec fn from_slot_spec(s: Slot) -> Self;

    /// The slot that keeps `v`.
    spec fn to_slot_spec(v: Self) -> Slot;

    proof fn lemma_roundtrip(v: Self)
        ensures
            Self::holds(Self::to_slot_spec(v)),
            Self::from_slot_spec(Self::to_slot_spec(v)) == v,
    ;

    fn is_held(s: &Slot) -> (b: bool)
        ensures
            b == Self::holds(*s),
    ;

    fn into_slot(self) -> (s: Slot)
        ensures
            s == Self::to_slot_spec(self),
    ;

    fn from_slot(s: Slot) -> (v: Self)
        requires
            Self::holds(s),
        ensures
            v == Self::from_slot_spec(s),
    ;

    fn from_slot_ref(s: &Slot) -> (v: &Self)
        requires
            Self::holds(*s),
        ensures
            *v == Self::from_slot_spec(*s),
    ;

    fn from_slot_mut(s: &mut Slot) -> (v: &mut Self)
        requires
            Self::holds(*old(s)),
        ensures
            *v == Self::from_slot_spec(*old(s)),
            *final(s) == Self::to_slot_spec(*final(v)),
    ;
}

impl SlotValue for String {
    open spec fn holds(s: Slot) -> bool {
        s is Text
    }

    open spec fn from_slot_spec(s: Slot) -> String {
        s->Text_0
    }

    open spec fn to_slot_spec(v: String) -> Slot {
        Slot::Text(v)
    }

    proof fn lemma_roundtrip(v: String) {
    }

    fn is_held(s: &Slot) -> (b: bool) {
        matches!(s, Slot::Text(_))
    }

    fn into_slot(self) -> (s: Slot) {
        Slot::Text(self)
    }

    fn from_slot(s: Slot) -> (v: String) {
        match s {
            Slot::Text(t) => t,
            _ => String::new(),
        }
    }

    fn from_slot_ref(s: &Slot) -> (v: &String) {
        match s {
            Slot::Text(t) => t,
            _ => {
                vstd::pervasive::unreached()
            }
        }
    }

    fn from_slot_mut(s: &mut Slot) -> (v: &mut String) {
        match s {
            Slot::Text(t) => t,
            _ => {
                vstd::pervasive::unreached()
            }
        }
    }
}

impl SlotValue for i64 {
    open spec fn holds(s: Slot) -> bool {
        s is Int
    }

    open spec fn from_slot_spec(s: Slot) -> i64 {
        s->Int_0
    }

    open spec fn to_slot_spec(v: i64) -> Slot {
        Slot::Int(v)
    }

    proof fn lemma_roundtrip(v: i64) {
    }

    fn is_held(s: &Slot) -> (b: bool) {
        matches!(s, Slot::Int(_))
    }

    fn into_slot(self) -> (s: Slot) {
        Slot::Int(self)
    }

    fn from_slot(s: Slot) -> (v: i64) {
        match s {
            Slot::Int(t) => t,
            _ => 0,
        }
    }

    fn from_slot_ref(s: &Slot) -> (v: &i64) {
        match s {
            Slot::Int(t) => t,
            _ => {
                vstd::pervasive::unreached()
            }
        }
    }

    fn from_slot_mut(s: &mut Slot) -> (v: &mut i64) {
        match s {
            Slot::Int(t) => t,
            _ => {
                vstd::pervasive::unreached()
            }
        }
    }
}

impl SlotValue for bool {
    open spec fn holds(s: Slot) -> bool {
        s is Bool
    }

    open spec fn from_slot_spec(s: Slot) -> bool {
        s->Bool_0
    }

    open spec fn to_slot_spec(v: bool) -> Slot {
        Slot::Bool(v)
    }

    proof fn lemma_roundtrip(v: bool) {
    }

    fn is_held(s: &Slot) -> (b: bool) {
        matches!(s, Slot::Bool(_))
    }

    fn into_slot(self) -> (s: Slot) {
        Slot::Bool(self)
    }

    fn from_slot(s: Slot) -> (v: bool) {
        match s {
            Slot::Bool(t) => t,
            _ => false,
        }
    }

    fn from_slot_ref(s: &Slot) -> (v: &bool) {
        match s {
            Slot::Bool(t) => t,
            _ => {
                vstd::pervasive::unreached()
            }
        }
    }

    fn from_slot_mut(s: &mut Slot) -> (v: &mut bool) {
        match s {
            Slot::Bool(t) => t,
            _ => {
                vstd::pervasive::unreached()
            }
        }
    }
}


/// `HashMap::get_mut`.
#[verifier::external_body]
fn hash_map_get_mut<'a, K: Eq + Hash>(m: &'a mut HashMap<K, Slot>, k: &K) -> (r: Option<
    &'a mut Slot,
>)
    ensures
        obeys_key_model::<K>() ==> match r {
            Some(v) => {
                &&& old(m)@.contains_key(*k)
                &&& *v == old(m)@[*k]
                &&& final(m)@ == old(m)@.insert(*k, *final(v))
            },
            None => !old(m)@.contains_key(*k) && final(m)@ == old(m)@,
        },
{
    m.get_mut(k)
}

/// `{:?}` of a key. Its text depends on the key type's `Debug`, so nothing
/// is stated of it.
#[verifier::external_body]
fn key_debug_text<K: Debug>(key: &K) -> (s: String) {
    format!("{:?}", key)
}

/// `Keys::next`: the next key of the walk over a map's keys, in the order
/// the map keeps them, which nothing here states.
#[verifier::external_body]
fn next_key<'a, K>(keys: &mut std::collections::hash_map::Keys<'a, K, Slot>) -> (r: Option<&'a K>) {
    keys.next()
}

/// Whether no text of `v` comes before an earlier one.
pub open spec fn lex_sorted(v: Seq<Seq<char>>) -> bool {
    forall|i: int, j: int| 0 <= i < j < v.len() ==> !lex_lt(#[trigger] v[j], #[trigger] v[i])
}

/// What an [`HMap`] of `len` keys, whose key texts in order are `keys`,
/// shows as its debug text.
pub open spec fn hmap_debug_text(len: nat, keys: Seq<Seq<char>>) -> Seq<char> {
    "HMap { len: "@ + decimal(len) + ", keys: ["@ + join(keys, ", "@) + "] }"@
}

/// Puts `s` into the sorted `v` after every text that does not come after it.
fn insert_lex(v: &mut Vec<String>, s: String)
    requires
        lex_sorted(crate::text::string_views(old(v)@)),
    ensures
        lex_sorted(crate::text::string_views(final(v)@)),
        final(v)@.len() == old(v)@.len() + 1,
{
    let ghost old_views = crate::text::string_views(v@);
    let mut p: usize = 0;
    while p < v.len() && !str_lt(s.as_str(), v[p].as_str())
        invariant
            p <= v@.len(),
            old_views == crate::text::string_views(v@),
            forall|i: int| 0 <= i < p ==> !lex_lt(s@, #[trigger] old_views[i]),
        decreases v@.len() - p,
    {
        p = p + 1;
    }
    let ghost sv = s@;
    v.insert(p, s);
    proof {
        let nv = crate::text::string_views(v@);
        assert(nv =~= old_views.insert(p as int, sv));
        assert forall|i: int, j: int| 0 <= i < j < nv.len() implies !lex_lt(
            #[trigger] nv[j],
            #[trigger] nv[i],
        ) by {
            if i < p && j == p {
                lemma_lex_total(sv, old_views[i]);
            } else if i < p && j > p {
                assert(nv[j] == old_views[j - 1]);
            } else if i == p && j > p {
                assert(nv[j] == old_views[j - 1]);
                assert(lex_lt(sv, old_views[p as int]));
                if lex_lt(old_views[j - 1], sv) {
                    lemma_lex_transitive(old_views[j - 1], sv, old_views[p as int]);
                    if j - 1 == p {
                        lemma_lex_total(sv, old_views[p as int]);
                    }
                }
            } else if i > p {
                assert(nv[i] == old_views[i - 1] && nv[j] == old_views[j - 1]);
            }
        }
    }
}

/// A map from keys to values of several types.
///
/// Each value keeps its type; reading a key back with another type than the
/// one stored under it is outside every method's contract.
#[derive(PartialEq)]
pub struct HMap<K: Eq + Hash> {
    values: HashMap<K, Slot>,
}

impl<K: Eq + Hash> View for HMap<K> {
    type V = Map<K, Slot>;

    closed spec fn view(&self) -> Map<K, Slot> {
        self.values@
    }
}

/// A value stored under a key is read back as the same value of the same
/// type, and every other key keeps what it held.
pub proof fn hmap_reads_back_inserted<K, T: SlotValue>(before: Map<K, Slot>, key: K, value: T, other: K)
    ensures
        ({
            let after = before.insert(key, T::to_slot_spec(value));
            &&& after.contains_key(key)
            &&& type_matches::<K, T>(after, key)
            &&& T::from_slot_spec(after[key]) == value
            &&& other != key ==> after.contains_key(other) == before.contains_key(other)
                && after[other] == before[other]
        }),
{
    T::lemma_roundtrip(value);
}

/// Whether a key of `m` that is requested as `T` holds a `T`.
pub open spec fn type_matches<K, T: SlotValue>(m: Map<K, Slot>, key: K) -> bool {
    m.contains_key(key) ==> T::holds(m[key])
}

impl<K: Eq + Hash> HMap<K> {
    /// An empty map.
    pub fn new() -> (m: Self)
        ensures
            m@ == Map::<K, Slot>::empty(),
    {
        HMap { values: HashMap::new() }
    }

    /// Stores `value` under `key` and returns the value it replaces.
    pub fn insert<T: SlotValue>(&mut self, key: K, value: T) -> (r: Option<T>)
        requires
            type_matches::<K, T>(old(self)@, key),
        ensures
            obeys_key_model::<K>() ==> {
                &&& final(self)@ == old(self)@.insert(key, T::to_slot_spec(value))
                &&& final(self)@.len() == if old(self)@.contains_key(key) {
                    old(self)@.len() as int
                } else {
                    old(self)@.len() + 1int
                }
                &&& r == if old(self)@.contains_key(key) {
                    Some(T::from_slot_spec(old(self)@[key]))
                } else {
                    None::<T>
                }
            },
    {
        proof {
            broadcast use vstd::std_specs::hash::axiom_hashmap_view_finite_dom;
            assert(self.values@.dom().finite());
        }
        let previous = self.values.insert(key, value.into_slot());
        match previous {
            Some(p) => {
                if T::is_held(&p) {
                    Some(T::from_slot(p))
                } else {
                    None
                }
            },
            None => None,
        }
    }

    /// The value stored under `key`, read as a `T`.
    pub fn get<T: SlotValue>(&self, key: &K) -> (r: Option<&T>)
        requires
            type_matches::<K, T>(self@, *key),
        ensures
            obeys_key_model::<K>() ==> match r {
                Some(v) => self@.contains_key(*key) && *v == T::from_slot_spec(self@[*key]),
                None => !self@.contains_key(*key),
            },
    {
        match self.values.get(key) {
            Some(s) => {
                if T::is_held(s) {
                    Some(T::from_slot_ref(s))
                } else {
                    None
                }
            },
            None => None,
        }
    }

    /// The value stored under `key`, read as a `T` that can be changed in place.
    pub fn get_mut<T: SlotValue>(&mut self, key: &K) -> (r: Option<&mut T>)
        requires
            type_matches::<K, T>(old(self)@, *key),
        ensures
            obeys_key_model::<K>() ==> match r {
                Some(v) => {
                    &&& old(self)@.contains_key(*key)
                    &&& *v == T::from_slot_spec(old(self)@[*key])
                    &&& final(self)@ == old(self)@.insert(*key, T::to_slot_spec(*final(v)))
                },
                None => !old(self)@.contains_key(*key) && final(self)@ == old(self)@,
            },
    {
        match hash_map_get_mut(&mut self.values, key) {
            Some(s) => {
                if T::is_held(s) {
                    Some(T::from_slot_mut(s))
                } else {
                    None
                }
            },
            None => None,
        }
    }

    /// Removes the value stored under `key` and returns it as a `T`.
    pub fn remove<T: SlotValue>(&mut self, key: &K) -> (r: Option<T>)
        requires
            type_matches::<K, T>(old(self)@, *key),
        ensures
            obeys_key_model::<K>() ==> {
                &&& final(self)@ == old(self)@.remove(*key)
                &&& final(self)@.len() == if old(self)@.contains_key(*key) {
                    old(self)@.len() - 1
                } else {
                    old(self)@.len() as int
                }
                &&& r == if old(self)@.contains_key(*key) {
                    Some(T::from_slot_spec(old(self)@[*key]))
                } else {
                    None::<T>
                }
            },
    {
        proof {
            broadcast use vstd::std_specs::hash::axiom_hashmap_view_finite_dom;
            assert(self.values@.dom().finite());
        }
        match self.values.remove(key) {
            Some(p) => {
                if T::is_held(&p) {
                    Some(T::from_slot(p))
                } else {
                    None
                }
            },
            None => None,
        }
    }

    /// Whether a value is stored under `key`.
    pub fn contains_key(&self, key: &K) -> (r: bool)
        ensures
            obeys_key_model::<K>() ==> r == self@.contains_key(*key),
    {
        self.values.contains_key(key)
    }

    /// The number of keys.
    pub fn len(&self) -> (r: usize)
        ensures
            obeys_key_model::<K>() ==> r == self@.len(),
    {
        self.values.len()
    }

    /// Whether the map holds no key.
    pub fn is_empty(&self) -> (r: bool)
        ensures
            r == self@.is_empty(),
    {
        self.values.is_empty()
    }

    /// The number of keys the map reports (its `len`).
    pub closed spec fn key_count(&self) -> nat {
        self.values.len() as nat
    }

    /// The debug text of the map: its number of keys and the debug texts of
    /// its keys, sorted, as `HMap { len: 2, keys: [Age, Name] }`.
    pub fn debug_text(&self) -> (s: String) where K: Debug
        ensures
            exists|keys: Seq<Seq<char>>|
                lex_sorted(keys) && #[trigger] hmap_debug_text(self.key_count(), keys) == s@,
            obeys_key_model::<K>() ==> self.key_count() == self@.len(),
    {
        let n = self.values.len();
        let mut texts: Vec<String> = Vec::new();
        let mut keys = self.values.keys();
        let mut count: usize = 0;
        while count < n
            invariant
                count <= n,
                lex_sorted(crate::text::string_views(texts@)),
            decreases n - count,
        {
            match next_key(&mut keys) {
                Some(k) => {
                    insert_lex(&mut texts, key_debug_text(k));
                },
                None => {
                    break;
                },
            }
            count = count + 1;
        }
        let ghost tv = crate::text::string_views(texts@);
        let mut s = "HMap { len: ".to_string();
        append_str(&mut s, u64_to_decimal(n as u64).as_str());
        append_str(&mut s, ", keys: [");
        let ghost head = s@;
        let mut i: usize = 0;
        while i < texts.len()
            invariant
                i <= texts@.len(),
                tv == crate::text::string_views(texts@),
                s@ == head + join(tv.take(i as int), ", "@),
            decreases texts@.len() - i,
        {
            let ghost before = s@;
            if i > 0 {
                append_str(&mut s, ", ");
            }
            append_str(&mut s, texts[i].as_str());
            proof {
                assert(tv.take(i + 1).drop_last() =~= tv.take(i as int));
                assert(tv.take(i + 1).last() == tv[i as int]);
                if i == 0 {
                    assert(tv.take(1) =~= seq![tv[0]]);
                }
            }
            i = i + 1;
        }
        assert(tv.take(texts@.len() as int) =~= tv);
        append_str(&mut s, "] }");
        proof {
            reveal_strlit("HMap { len: ");
            reveal_strlit(", keys: [");
            reveal_strlit("] }");
            assert(s@ =~= hmap_debug_text(n as nat, tv));
            assert(self.key_count() == n as nat);
            assert(lex_sorted(tv));
            assert(hmap_debug_text(self.key_count(), tv) == s@);
        }
        s
    }

    /// Removes every key.
    pub fn clear(&mut self)
        ensures
            final(self)@ == Map::<K, Slot>::empty(),
    {
        self.values.clear();
    }
}

impl<K: Eq + Hash> Default for HMap<K> {
    fn default() -> (m: Self)
        ensures
            m@ == Map::<K, Slot>::empty(),
    {
        Self::new()
    }
}

} // verus!
