//! A map from strings to values, kept as a list of entries with distinct
//! keys. Its view is a `Map` from the keys' characters to the values'
//! views.

use vstd::prelude::*;
use crate::text::str_eq;

verus! {

/// Values that can be copied with a known result.
pub trait DeepClone: DeepView + Sized {
    fn deep_clone(&self) -> (r: Self)
        ensures
            r.deep_view() == self.deep_view(),
    ;
}

impl DeepClone for String {
    fn deep_clone(&self) -> (r: String) {
        self.clone()
    }
}

impl DeepClone for i32 {
    fn deep_clone(&self) -> (r: i32) {
        *self
    }
}

impl DeepClone for bool {
    fn deep_clone(&self) -> (r: bool) {
        *self
    }
}

impl DeepClone for usize {
    fn deep_clone(&self) -> (r: usize) {
        *self
    }
}

impl<T: DeepClone> DeepClone for Vec<T> {
    fn deep_clone(&self) -> (r: Vec<T>) {
        let mut r: Vec<T> = Vec::new();
        let mut i: usize = 0;
        while i < self.len()
            invariant
                i <= self.len(),
                r@.len() == i,
                forall|j: int| 0 <= j < i ==> #[trigger] r@[j].deep_view() == self@[j].deep_view(),
            decreases self.len() - i,
        {
            r.push(self[i].deep_clone());
            i = i + 1;
        }
        assert(r.deep_view() =~= self.deep_view());
        r
    }
}

impl<T: DeepClone> DeepClone for Option<T> {
    fn deep_clone(&self) -> (r: Option<T>) {
        match self {
            Some(x) => Some(x.deep_clone()),
            None => None,
        }
    }
}

/// A map from strings to values. Keys are distinct; entries keep the order
/// in which their keys were first inserted.
#[derive(Debug)]
pub struct StrMap<V> {
    entries: Vec<(String, V)>,
}

impl<V> StrMap<V> {
    /// Number of entries.
    pub closed spec fn size(self) -> nat {
        self.entries@.len()
    }

    /// The key of entry `i`.
    pub closed spec fn ekey(self, i: int) -> Seq<char> {
        self.entries@[i].0@
    }

    /// The keys of the entries, in order.
    pub closed spec fn key_seq(self) -> Seq<Seq<char>> {
        Seq::new(self.size(), |i: int| self.ekey(i))
    }

    /// Keys are distinct.
    #[verifier::type_invariant]
    pub closed spec fn distinct_keys(self) -> bool {
        forall|i: int, j: int|
            0 <= i < self.size() && 0 <= j < self.size() && i != j ==> self.ekey(i) != self.ekey(j)
    }

    /// The index of the entry with key `k`.
    closed spec fn index_of(self, k: Seq<char>) -> int {
        choose|i: int| 0 <= i < self.size() && self.ekey(i) == k
    }
}

impl<V: DeepView> StrMap<V> {
    /// The value of entry `i`.
    pub closed spec fn evalue(self, i: int) -> V::V {
        self.entries@[i].1.deep_view()
    }


    /// The contents as a map.
    pub closed spec fn as_map(self) -> Map<Seq<char>, V::V> {
        Map::new(
            |k: Seq<char>| exists|i: int| 0 <= i < self.size() && self.ekey(i) == k,
            |k: Seq<char>| self.evalue(self.index_of(k)),
        )
    }

    /// Facts linking the entries to the map: every entry is in the map
    /// with its value, every key of the map is some entry's key, keys are
    /// distinct, and the map has one key per entry.
    pub proof fn lemma_entries(self)
        requires
            self.distinct_keys(),
        ensures
            forall|i: int|
                0 <= i < self.size() ==> #[trigger] self@.contains_key(self.ekey(i))
                    && self@[self.ekey(i)] == self.evalue(i),
            forall|k: Seq<char>|
                #[trigger] self@.contains_key(k) ==> exists|i: int|
                    0 <= i < self.size() && self.ekey(i) == k,
            forall|i: int, j: int|
                0 <= i < self.size() && 0 <= j < self.size() && i != j ==> self.ekey(i)
                    != self.ekey(j),
            self@.dom().finite(),
            self@.len() == self.size(),
            self@.dom() == self.key_seq().to_set(),
    {
        assert forall|i: int| 0 <= i < self.size() implies #[trigger] self.as_map().contains_key(
            self.ekey(i),
        ) && self.as_map()[self.ekey(i)] == self.evalue(i) by {
            let j = self.index_of(self.ekey(i));
            assert(0 <= j < self.size() && self.ekey(j) == self.ekey(i));
        }
        assert(self.as_map().dom() =~= self.key_seq().to_set()) by {
            assert forall|k: Seq<char>| self.as_map().dom().contains(k) implies self.key_seq().to_set().contains(k) by {
                let i = choose|i: int| 0 <= i < self.size() && self.ekey(i) == k;
                assert(self.key_seq()[i] == k);
            }
            assert forall|k: Seq<char>| self.key_seq().to_set().contains(k) implies self.as_map().dom().contains(k) by {
                let i = choose|i: int| 0 <= i < self.key_seq().len() && self.key_seq()[i] == k;
                assert(self.ekey(i) == k);
            }
        }
        assert(self.key_seq().no_duplicates());
        self.key_seq().unique_seq_to_set();
        vstd::seq_lib::seq_to_set_is_finite(self.key_seq());
    }
}

impl<V: DeepView> View for StrMap<V> {
    type V = Map<Seq<char>, V::V>;

    closed spec fn view(&self) -> Map<Seq<char>, V::V> {
        self.as_map()
    }
}

impl<V: DeepView> DeepView for StrMap<V> {
    type V = Map<Seq<char>, V::V>;

    open spec fn deep_view(&self) -> Map<Seq<char>, V::V> {
        self@
    }
}

impl<V: DeepView> StrMap<V> {
    pub proof fn lemma_view(self)
        ensures
            self@ == self.as_map(),
    {
    }

    /// An empty map.
    pub fn new() -> (r: Self)
        ensures
            r@ == Map::<Seq<char>, V::V>::empty(),
            r.size() == 0,
    {
        let r = StrMap { entries: Vec::new() };
        proof {
            use_type_invariant(&r);
        }
        assert(r.as_map() =~= Map::<Seq<char>, V::V>::empty());
        r
    }

    /// Number of keys.
    pub fn len(&self) -> (r: usize)
        ensures
            r == self@.len(),
            r == self.size(),
    {
        proof {
            use_type_invariant(self);
            self.lemma_entries();
        }
        self.entries.len()
    }

    /// Whether the map has no keys.
    pub fn is_empty(&self) -> (r: bool)
        ensures
            r == (self@.len() == 0),
            r == (self@ == Map::<Seq<char>, V::V>::empty()),
    {
        proof {
            use_type_invariant(self);
            self.lemma_entries();
            if self.size() == 0 {
                assert(self@ =~= Map::<Seq<char>, V::V>::empty());
            } else {
                assert(self@.contains_key(self.ekey(0)));
            }
        }
        self.entries.len() == 0
    }

    /// The index of the entry whose key is `key`.
    pub fn position(&self, key: &str) -> (r: Option<usize>)
        ensures
            r matches Some(i) ==> i < self.size() && self.ekey(i as int) == key@,
            r is None ==> !self@.contains_key(key@),
    {
        proof {
            use_type_invariant(self);
            self.lemma_entries();
        }
        let mut i: usize = 0;
        while i < self.entries.len()
            invariant
                i <= self.size(),
                forall|j: int| 0 <= j < i ==> self.ekey(j) != key@,
            decreases self.size() - i,
        {
            if str_eq(self.entries[i].0.as_str(), key) {
                return Some(i);
            }
            i = i + 1;
        }
        None
    }

    /// The value stored under `key`.
    pub fn get(&self, key: &str) -> (r: Option<&V>)
        ensures
            r matches Some(v) ==> self@.contains_key(key@) && v.deep_view() == self@[key@],
            r is None ==> !self@.contains_key(key@),
    {
        proof {
            use_type_invariant(self);
            self.lemma_entries();
        }
        match self.position(key) {
            Some(i) => Some(&self.entries[i].1),
            None => None,
        }
    }

    /// Whether `key` is present.
    pub fn contains_key(&self, key: &str) -> (r: bool)
        ensures
            r == self@.contains_key(key@),
    {
        proof {
            use_type_invariant(self);
            self.lemma_entries();
        }
        self.position(key).is_some()
    }

    /// The key of entry `i`.
    pub fn key_at(&self, i: usize) -> (r: &String)
        requires
            i < self.size(),
        ensures
            r@ == self.ekey(i as int),
    {
        &self.entries[i].0
    }

    /// The value of entry `i`.
    pub fn value_at(&self, i: usize) -> (r: &V)
        requires
            i < self.size(),
        ensures
            r.deep_view() == self.evalue(i as int),
    {
        &self.entries[i].1
    }

    /// Stores `value` under `key`, replacing any earlier value.
    pub fn insert(&mut self, key: String, value: V)
        ensures
            final(self)@ == old(self)@.insert(key@, value.deep_view()),
    {
        proof {
            use_type_invariant(&*self);
            self.lemma_entries();
        }
        let ghost old_self = *self;
        match self.position(key.as_str()) {
            Some(i) => {
                let mut entries: Vec<(String, V)> = Vec::new();
                std::mem::swap(&mut entries, &mut self.entries);
                entries.set(i, (key, value));
                let ghost e = entries@;
                assert forall|a: int, b: int|
                    0 <= a < e.len() && 0 <= b < e.len() && a != b implies e[a].0@ != e[b].0@ by {
                    assert(old_self.ekey(a) != old_self.ekey(b) || a == b);
                }
                self.entries = entries;
                proof {
                    use_type_invariant(&*self);
                    self.lemma_entries();
                    let expected = old_self@.insert(key@, value.deep_view());
                    assert forall|k: Seq<char>|
                        #[trigger] self@.contains_key(k) == expected.contains_key(k) by {
                        if self@.contains_key(k) {
                            let j = choose|j: int| 0 <= j < self.size() && self.ekey(j) == k;
                            if j != i {
                                assert(old_self.ekey(j) == k);
                            }
                        }
                        if expected.contains_key(k) && k != key@ {
                            let j = choose|j: int| 0 <= j < old_self.size() && old_self.ekey(j) == k;
                            assert(self.ekey(j) == k);
                        }
                        if k == key@ {
                            assert(self.ekey(i as int) == k);
                        }
                    }
                    assert forall|k: Seq<char>| self@.contains_key(k) implies self@[k]
                        == expected[k] by {
                        let j = choose|j: int| 0 <= j < self.size() && self.ekey(j) == k;
                        if j != i {
                            assert(old_self.ekey(j) == k);
                            assert(old_self@[k] == old_self.evalue(j));
                        }
                    }
                    assert(self@ =~= expected);
                }
            },
            None => {
                let mut entries: Vec<(String, V)> = Vec::new();
                std::mem::swap(&mut entries, &mut self.entries);
                entries.push((key, value));
                let ghost e = entries@;
                assert forall|a: int, b: int|
                    0 <= a < e.len() && 0 <= b < e.len() && a != b implies e[a].0@ != e[b].0@ by {
                    if a < old_self.size() && b < old_self.size() {
                        assert(old_self.ekey(a) != old_self.ekey(b));
                    } else if a < old_self.size() {
                        assert(old_self@.contains_key(old_self.ekey(a)));
                    } else {
                        assert(old_self@.contains_key(old_self.ekey(b)));
                    }
                }
                self.entries = entries;
                proof {
                    use_type_invariant(&*self);
                    self.lemma_entries();
                    let n = old_self.size() as int;
                    let expected = old_self@.insert(key@, value.deep_view());
                    assert forall|k: Seq<char>|
                        #[trigger] self@.contains_key(k) == expected.contains_key(k) by {
                        if self@.contains_key(k) {
                            let j = choose|j: int| 0 <= j < self.size() && self.ekey(j) == k;
                            if j != n {
                                assert(old_self.ekey(j) == k);
                            }
                        }
                        if expected.contains_key(k) && k != key@ {
                            let j = choose|j: int| 0 <= j < old_self.size() && old_self.ekey(j) == k;
                            assert(self.ekey(j) == k);
                        }
                        if k == key@ {
                            assert(self.ekey(n) == k);
                        }
                    }
                    assert forall|k: Seq<char>| self@.contains_key(k) implies self@[k]
                        == expected[k] by {
                        let j = choose|j: int| 0 <= j < self.size() && self.ekey(j) == k;
                        if j != n {
                            assert(old_self.ekey(j) == k);
                            assert(old_self@[k] == old_self.evalue(j));
                        }
                    }
                    assert(self@ =~= expected);
                }
            },
        }
    }

    /// The keys, in entry order.
    pub fn keys(&self) -> (r: Vec<String>)
        ensures
            r@.len() == self.size(),
            forall|i: int| 0 <= i < self.size() ==> #[trigger] r@[i]@ == self.ekey(i),
    {
        let mut r: Vec<String> = Vec::new();
        let mut i: usize = 0;
        while i < self.entries.len()
            invariant
                i <= self.size(),
                r@.len() == i,
                forall|j: int| 0 <= j < i ==> #[trigger] r@[j]@ == self.ekey(j),
            decreases self.size() - i,
        {
            r.push(self.entries[i].0.clone());
            i = i + 1;
        }
        r
    }
}

impl<V: DeepClone> StrMap<V> {
    /// A copy of the map.
    pub fn deep_clone_map(&self) -> (r: Self)
        ensures
            r@ == self@,
    {
        proof {
            use_type_invariant(self);
            self.lemma_entries();
        }
        let mut entries: Vec<(String, V)> = Vec::new();
        let mut i: usize = 0;
        while i < self.entries.len()
            invariant
                i <= self.size(),
                entries@.len() == i,
                forall|j: int|
                    0 <= j < i ==> #[trigger] entries@[j].0@ == self.ekey(j)
                        && entries@[j].1.deep_view() == self.evalue(j),
                forall|a: int, b: int|
                    0 <= a < self.size() && 0 <= b < self.size() && a != b ==> self.ekey(a)
                        != self.ekey(b),
            decreases self.size() - i,
        {
            entries.push((self.entries[i].0.clone(), self.entries[i].1.deep_clone()));
            i = i + 1;
        }
        let r = StrMap { entries };
        proof {
            use_type_invariant(&r);
            r.lemma_entries();
            use_type_invariant(self);
            self.lemma_entries();
            assert forall|k: Seq<char>| #[trigger] r@.contains_key(k) == self@.contains_key(k) by {
                if r@.contains_key(k) {
                    let j = choose|j: int| 0 <= j < r.size() && r.ekey(j) == k;
                    assert(self.ekey(j) == k);
                }
                if self@.contains_key(k) {
                    let j = choose|j: int| 0 <= j < self.size() && self.ekey(j) == k;
                    assert(r.ekey(j) == k);
                }
            }
            assert forall|k: Seq<char>| r@.contains_key(k) implies r@[k] == self@[k] by {
                let j = choose|j: int| 0 <= j < r.size() && r.ekey(j) == k;
                assert(self.ekey(j) == k);
            }
            assert(r@ =~= self@);
        }
        r
    }

    /// Stores every entry of `other`, replacing values already present.
    pub fn extend_from(&mut self, other: &Self)
        ensures
            final(self)@ == old(self)@.union_prefer_right(other@),
    {
        proof {
            use_type_invariant(other);
            other.lemma_entries();
        }
        let ghost base = self@;
        let mut i: usize = 0;
        while i < other.entries.len()
            invariant
                i <= other.size(),
                other.distinct_keys(),
                forall|k: Seq<char>|
                    #[trigger] self@.contains_key(k) == (base.contains_key(k) || exists|j: int|
                        0 <= j < i && other.ekey(j) == k),
                forall|k: Seq<char>|
                    self@.contains_key(k) ==> #[trigger] self@[k] == if exists|j: int|
                        0 <= j < i && other.ekey(j) == k {
                        other.evalue(choose|j: int| 0 <= j < i && other.ekey(j) == k)
                    } else {
                        base[k]
                    },
            decreases other.size() - i,
        {
            let ghost before = self@;
            self.insert(other.entries[i].0.clone(), other.entries[i].1.deep_clone());
            proof {
                assert forall|k: Seq<char>|
                    #[trigger] self@.contains_key(k) == (base.contains_key(k) || exists|j: int|
                        0 <= j < i + 1 && other.ekey(j) == k) by {
                    if k == other.ekey(i as int) {
                        assert(0 <= i < i + 1 && other.ekey(i as int) == k);
                    }
                    if exists|j: int| 0 <= j < i + 1 && other.ekey(j) == k {
                        let j = choose|j: int| 0 <= j < i + 1 && other.ekey(j) == k;
                        if j < i {
                            assert(before.contains_key(k));
                        }
                    }
                }
                assert forall|k: Seq<char>| self@.contains_key(k) implies #[trigger] self@[k]
                    == if exists|j: int| 0 <= j < i + 1 && other.ekey(j) == k {
                    other.evalue(choose|j: int| 0 <= j < i + 1 && other.ekey(j) == k)
                } else {
                    base[k]
                } by {
                    if k == other.ekey(i as int) {
                        assert(0 <= i < i + 1 && other.ekey(i as int) == k);
                        let j = choose|j: int| 0 <= j < i + 1 && other.ekey(j) == k;
                        assert(j == i);
                    } else {
                        if exists|j: int| 0 <= j < i + 1 && other.ekey(j) == k {
                            let j = choose|j: int| 0 <= j < i + 1 && other.ekey(j) == k;
                            assert(j < i);
                            assert(exists|j: int| 0 <= j < i && other.ekey(j) == k);
                            let j2 = choose|j: int| 0 <= j < i && other.ekey(j) == k;
                            assert(j2 == j);
                        }
                    }
                }
            }
            i = i + 1;
        }
        proof {
            let expected = base.union_prefer_right(other@);
            assert forall|k: Seq<char>| #[trigger] self@.contains_key(k) == expected.contains_key(k) by {
                if other@.contains_key(k) {
                    let j = choose|j: int| 0 <= j < other.size() && other.ekey(j) == k;
                    assert(0 <= j < i && other.ekey(j) == k);
                }
            }
            assert forall|k: Seq<char>| self@.contains_key(k) implies self@[k] == expected[k] by {
                if exists|j: int| 0 <= j < i && other.ekey(j) == k {
                    let j = choose|j: int| 0 <= j < i && other.ekey(j) == k;
                    assert(other@.contains_key(k));
                }
            }
            assert(self@ =~= expected);
        }
    }

    /// Stores the entries of `other` whose keys are absent, keeping the
    /// values already present.
    pub fn extend_missing_from(&mut self, other: &Self)
        ensures
            final(self)@ == other@.union_prefer_right(old(self)@),
    {
        let ghost base = self@;
        let mut merged = other.deep_clone_map();
        merged.extend_from(self);
        *self = merged;
    }
}

impl<V: DeepClone> Clone for StrMap<V> {
    fn clone(&self) -> (r: Self)
        ensures
            r@ == self@,
    {
        self.deep_clone_map()
    }
}

impl<V: DeepClone> DeepClone for StrMap<V> {
    fn deep_clone(&self) -> (r: Self) {
        self.deep_clone_map()
    }
}

} // verus!
