//! A map with string keys that remembers the order in which its keys came.

use crate::text::{str_eq, Text};
use vstd::prelude::*;

verus! {

/// Values that can be duplicated.
pub trait Duplicate: DeepView + Sized {
    /// A second value that is the same mathematical value.
    fn duplicate(&self) -> (r: Self)
        ensures
            r.deep_view() == self.deep_view(),
    ;
}

impl Duplicate for String {
    fn duplicate(&self) -> (r: Self) {
        self.clone()
    }
}

impl<T: Duplicate> Duplicate for Vec<T> {
    fn duplicate(&self) -> (r: Self) {
        let mut r: Vec<T> = Vec::new();
        let mut i: usize = 0;
        while i < self.len()
            invariant
                i <= self@.len(),
                r@.len() == i,
                forall|k: int| 0 <= k < i ==> (#[trigger] r@[k]).deep_view() == self@[k].deep_view(),
            decreases self@.len() - i,
        {
            r.push(self[i].duplicate());
            i = i + 1;
        }
        assert(r.deep_view() =~= self.deep_view());
        r
    }
}

impl<T: Duplicate> Duplicate for Option<T> {
    fn duplicate(&self) -> (r: Self) {
        match self {
            Some(x) => Some(x.duplicate()),
            None => None,
        }
    }
}

impl<A: Duplicate, B: Duplicate> Duplicate for (A, B) {
    fn duplicate(&self) -> (r: Self) {
        (self.0.duplicate(), self.1.duplicate())
    }
}

/// Values that can be compared.
pub trait Same: DeepView + Sized {
    /// Whether two values are the same mathematical value.
    fn same(&self, other: &Self) -> (r: bool)
        ensures
            r == (self.deep_view() == other.deep_view()),
    ;
}

impl Same for String {
    fn same(&self, other: &Self) -> (r: bool) {
        str_eq(self.as_str(), other.as_str())
    }
}

impl<T: Same> Same for Vec<T> {
    fn same(&self, other: &Self) -> (r: bool) {
        let ghost x = self.deep_view();
        let ghost y = other.deep_view();
        if self.len() != other.len() {
            assert(x.len() != y.len());
            return false;
        }
        let mut i: usize = 0;
        while i < self.len()
            invariant
                i <= self@.len() == other@.len(),
                x == self.deep_view(),
                y == other.deep_view(),
                forall|k: int| 0 <= k < i ==> x[k] == y[k],
            decreases self@.len() - i,
        {
            assert(x[i as int] == self@[i as int].deep_view());
            assert(y[i as int] == other@[i as int].deep_view());
            if !self[i].same(&other[i]) {
                return false;
            }
            i = i + 1;
        }
        assert(x =~= y);
        true
    }
}

/// A map from strings to values.
#[derive(Debug)]
pub struct StringMap<V> {
    entries: Vec<(String, V)>,
}

spec fn distinct_keys<V>(entries: Seq<(String, V)>) -> bool {
    forall|i: int, j: int|
        0 <= i < entries.len() && 0 <= j < entries.len() && #[trigger] entries[i].0@
            == #[trigger] entries[j].0@ ==> i == j
}

impl<V> StringMap<V> {
    #[verifier::type_invariant]
    spec fn valid(self) -> bool {
        distinct_keys(self.entries@)
    }

    /// The keys, in the order in which they came.
    pub closed spec fn keys(self) -> Seq<Text> {
        Seq::new(self.entries@.len(), |i: int| self.entries@[i].0@)
    }

    spec fn position(self, key: Text) -> int {
        choose|i: int| 0 <= i < self.entries@.len() && #[trigger] self.entries@[i].0@ == key
    }
}

impl<V: DeepView> DeepView for StringMap<V> {
    type V = Map<Text, V::V>;

    closed spec fn deep_view(&self) -> Map<Text, V::V> {
        Map::new(
            |key: Text| self.keys().contains(key),
            |key: Text| self.entries@[self.position(key)].1.deep_view(),
        )
    }
}

impl<V: DeepView> StringMap<V> {
    /// An empty map.
    pub fn new() -> (r: Self)
        ensures
            r.deep_view() == Map::<Text, V::V>::empty(),
            r.keys() == Seq::<Text>::empty(),
    {
        let r = StringMap { entries: Vec::new() };
        assert(r.keys() =~= Seq::<Text>::empty());
        assert(r.deep_view() =~= Map::<Text, V::V>::empty());
        r
    }

    proof fn lemma_entry(self, i: int)
        requires
            distinct_keys(self.entries@),
            0 <= i < self.entries@.len(),
        ensures
            self.keys()[i] == self.entries@[i].0@,
            self.deep_view().contains_key(self.entries@[i].0@),
            self.deep_view()[self.entries@[i].0@] == self.entries@[i].1.deep_view(),
    {
        let key = self.entries@[i].0@;
        assert(self.keys()[i] == key);
        assert(self.keys().contains(key));
        assert(self.position(key) == i);
    }

    /// The number of keys. They are distinct, and they are the domain of the
    /// map.
    pub fn len(&self) -> (r: usize)
        ensures
            r == self.keys().len(),
            self.keys().no_duplicates(),
            forall|key: Text|
                #[trigger] self.deep_view().contains_key(key) <==> self.keys().contains(key),
    {
        proof {
            use_type_invariant(self);
        }
        self.entries.len()
    }

    /// The key at position `i`.
    pub fn key_at(&self, i: usize) -> (r: &String)
        requires
            i < self.keys().len(),
        ensures
            r@ == self.keys()[i as int],
            self.deep_view().contains_key(r@),
    {
        proof {
            use_type_invariant(self);
            self.lemma_entry(i as int);
        }
        &self.entries[i].0
    }

    /// The value of the key at position `i`.
    pub fn value_at(&self, i: usize) -> (r: &V)
        requires
            i < self.keys().len(),
        ensures
            r.deep_view() == self.deep_view()[self.keys()[i as int]],
    {
        proof {
            use_type_invariant(self);
            self.lemma_entry(i as int);
        }
        &self.entries[i].1
    }

    fn find(&self, key: &str) -> (r: Option<usize>)
        ensures
            match r {
                Some(i) => i < self.entries@.len() && self.entries@[i as int].0@ == key@
                    && self.deep_view().contains_key(key@) && self.deep_view()[key@]
                    == self.entries@[i as int].1.deep_view(),
                None => !self.deep_view().contains_key(key@),
            },
    {
        let mut i: usize = 0;
        while i < self.entries.len()
            invariant
                i <= self.entries@.len(),
                forall|k: int| 0 <= k < i ==> (#[trigger] self.entries@[k]).0@ != key@,
            decreases self.entries@.len() - i,
        {
            if str_eq(self.entries[i].0.as_str(), key) {
                proof {
                    use_type_invariant(self);
                    self.lemma_entry(i as int);
                }
                return Some(i);
            }
            i = i + 1;
        }
        assert(!self.keys().contains(key@));
        None
    }

    /// Whether the map has the key.
    pub fn contains_key(&self, key: &str) -> (r: bool)
        ensures
            r == self.deep_view().contains_key(key@),
    {
        self.find(key).is_some()
    }

    /// The value of a key.
    pub fn get(&self, key: &str) -> (r: Option<&V>)
        ensures
            match r {
                Some(v) => self.deep_view().contains_key(key@) && v.deep_view()
                    == self.deep_view()[key@],
                None => !self.deep_view().contains_key(key@),
            },
    {
        match self.find(key) {
            Some(i) => Some(&self.entries[i].1),
            None => None,
        }
    }

    /// Gives a key a value. A new key comes last; a key that was there keeps
    /// its place.
    pub fn insert(&mut self, key: String, value: V)
        ensures
            final(self).deep_view() == old(self).deep_view().insert(key@, value.deep_view()),
            final(self).keys() == if old(self).deep_view().contains_key(key@) {
                old(self).keys()
            } else {
                old(self).keys().push(key@)
            },
    {
        let ghost before = *self;
        let ghost k = key@;
        let ghost v = value.deep_view();
        let found = self.find(key.as_str());
        proof {
            use_type_invariant(&*self);
        }
        let mut entries: Vec<(String, V)> = Vec::new();
        std::mem::swap(&mut entries, &mut self.entries);
        match found {
            Some(i) => {
                entries.set(i, (key, value));
            },
            None => {
                entries.push((key, value));
            },
        }
        proof {
            let after = entries@;
            match found {
                Some(i) => {
                    assert(after == before.entries@.update(i as int, after[i as int]));
                    assert forall|a: int, b: int|
                        0 <= a < after.len() && 0 <= b < after.len() && #[trigger] after[a].0@
                            == #[trigger] after[b].0@ implies a == b by {
                        assert(before.entries@[a].0@ == after[a].0@);
                        assert(before.entries@[b].0@ == after[b].0@);
                    }
                },
                None => {
                    assert(!before.keys().contains(k));
                    assert forall|a: int, b: int|
                        0 <= a < after.len() && 0 <= b < after.len() && #[trigger] after[a].0@
                            == #[trigger] after[b].0@ implies a == b by {
                        if a < before.entries@.len() {
                            assert(before.keys()[a] == before.entries@[a].0@);
                            assert(before.keys().contains(before.entries@[a].0@));
                        }
                        if b < before.entries@.len() {
                            assert(before.keys()[b] == before.entries@[b].0@);
                            assert(before.keys().contains(before.entries@[b].0@));
                        }
                    }
                },
            }
        }
        self.entries = entries;
        proof {
            let at: int = match found {
                Some(i) => i as int,
                None => before.entries@.len() as int,
            };
            self.lemma_entry(at);
            if found is Some {
                assert(self.keys() =~= before.keys());
            } else {
                assert(self.keys() =~= before.keys().push(k));
            }
            assert forall|x: Text|
                #![trigger self.deep_view().dom().contains(x)]
                #![trigger self.deep_view()[x]]
                x != k implies self.deep_view().dom().contains(x)
                == before.deep_view().dom().contains(x) && (before.deep_view().dom().contains(x)
                ==> self.deep_view()[x] == before.deep_view()[x]) by {
                if before.keys().contains(x) {
                    let j = choose|j: int|
                        0 <= j < before.keys().len() && #[trigger] before.keys()[j] == x;
                    before.lemma_entry(j);
                    self.lemma_entry(j);
                }
                if self.keys().contains(x) {
                    let j = choose|j: int|
                        0 <= j < self.keys().len() && #[trigger] self.keys()[j] == x;
                    self.lemma_entry(j);
                    before.lemma_entry(j);
                }
            }
            assert(self.deep_view() =~= before.deep_view().insert(k, v));
        }
    }

    /// Takes a key out of the map, and gives back the value that it had.
    pub fn remove(&mut self, key: &str) -> (r: Option<V>)
        ensures
            final(self).deep_view() == old(self).deep_view().remove(key@),
            match r {
                Some(v) => old(self).deep_view().contains_key(key@) && v.deep_view() == old(
                    self,
                ).deep_view()[key@],
                None => !old(self).deep_view().contains_key(key@),
            },
            final(self).keys() == without(old(self).keys(), key@),
    {
        let ghost before = *self;
        match self.find(key) {
            Some(i) => {
                proof {
                    use_type_invariant(&*self);
                }
                let mut entries: Vec<(String, V)> = Vec::new();
                std::mem::swap(&mut entries, &mut self.entries);
                let (_, value) = entries.remove(i);
                proof {
                    let after = entries@;
                    assert forall|a: int, b: int|
                        0 <= a < after.len() && 0 <= b < after.len() && #[trigger] after[a].0@
                            == #[trigger] after[b].0@ implies a == b by {
                        let a0 = if a < i { a } else { a + 1 };
                        let b0 = if b < i { b } else { b + 1 };
                        assert(before.entries@[a0].0@ == before.entries@[b0].0@);
                    }
                }
                self.entries = entries;
                proof {
                    let n = before.entries@.len() as int;
                    assert forall|x: Text|
                        #![trigger self.deep_view().dom().contains(x)]
                        #![trigger self.deep_view()[x]]
                        x != key@ implies self.deep_view().dom().contains(x)
                        == before.deep_view().dom().contains(x) && (
                    before.deep_view().dom().contains(x) ==> self.deep_view()[x]
                        == before.deep_view()[x]) by {
                        if before.keys().contains(x) {
                            let j = choose|j: int|
                                0 <= j < before.keys().len() && #[trigger] before.keys()[j] == x;
                            before.lemma_entry(j);
                            self.lemma_entry(if j < i { j } else { j - 1 });
                        }
                        if self.keys().contains(x) {
                            let j = choose|j: int|
                                0 <= j < self.keys().len() && #[trigger] self.keys()[j] == x;
                            self.lemma_entry(j);
                            before.lemma_entry(if j < i { j } else { j + 1 });
                        }
                    }
                    assert(!self.keys().contains(key@)) by {
                        if self.keys().contains(key@) {
                            let j = choose|j: int|
                                0 <= j < self.keys().len() && #[trigger] self.keys()[j] == key@;
                            let j0 = if j < i { j } else { j + 1 };
                            assert(before.entries@[j0].0@ == before.entries@[i as int].0@);
                        }
                    }
                    assert(self.deep_view() =~= before.deep_view().remove(key@));
                    assert(self.keys() =~= before.keys().remove(i as int));
                    assert(before.keys()[i as int] == key@);
                    assert forall|j: int| 0 <= j < before.keys().len() && j != i implies #[trigger] before.keys()[j]
                        != key@ by {
                        assert(before.entries@[j].0@ != before.entries@[i as int].0@);
                    }
                    lemma_without_one(before.keys(), key@, i as int);
                }
                Some(value)
            },
            None => {
                proof {
                    assert(self.deep_view() =~= before.deep_view().remove(key@));
                    assert forall|j: int| 0 <= j < before.keys().len() implies #[trigger] before.keys()[j]
                        != key@ by {
                        assert(before.keys().contains(before.keys()[j]));
                    }
                    lemma_without_absent(before.keys(), key@);
                }
                None
            },
        }
    }
}

/// The keys other than `key`, in their order.
pub open spec fn without(keys: Seq<Text>, key: Text) -> Seq<Text>
    decreases keys.len(),
{
    if keys.len() == 0 {
        Seq::empty()
    } else if keys.last() == key {
        without(keys.drop_last(), key)
    } else {
        without(keys.drop_last(), key).push(keys.last())
    }
}

proof fn lemma_without_absent(s: Seq<Text>, x: Text)
    requires
        forall|j: int| 0 <= j < s.len() ==> #[trigger] s[j] != x,
    ensures
        without(s, x) == s,
    decreases s.len(),
{
    if s.len() > 0 {
        assert(forall|j: int| 0 <= j < s.drop_last().len() ==> s.drop_last()[j] == s[j]);
        lemma_without_absent(s.drop_last(), x);
        assert(s.drop_last().push(s.last()) =~= s);
    } else {
        assert(s =~= Seq::<Text>::empty());
    }
}

proof fn lemma_without_one(s: Seq<Text>, x: Text, i: int)
    requires
        0 <= i < s.len(),
        s[i] == x,
        forall|j: int| 0 <= j < s.len() && j != i ==> #[trigger] s[j] != x,
    ensures
        without(s, x) == s.remove(i),
    decreases s.len(),
{
    let d = s.drop_last();
    assert(forall|j: int| 0 <= j < d.len() ==> d[j] == s[j]);
    if i == s.len() - 1 {
        lemma_without_absent(d, x);
        assert(s.remove(i) =~= d);
    } else {
        lemma_without_one(d, x, i);
        assert(s.remove(i) =~= d.remove(i).push(s.last()));
    }
}

impl<V: Duplicate> Duplicate for StringMap<V> {
    fn duplicate(&self) -> (r: Self) {
        let mut r: StringMap<V> = StringMap::new();
        let mut i: usize = 0;
        proof {
            use_type_invariant(self);
            assert(self.keys().take(0) =~= Seq::<Text>::empty());
        }
        while i < self.entries.len()
            invariant
                i <= self.entries@.len(),
                distinct_keys(self.entries@),
                r.keys() == self.keys().take(i as int),
                forall|key: Text| r.deep_view().contains_key(key) <==> r.keys().contains(key),
                forall|key: Text|
                    r.keys().contains(key) ==> #[trigger] r.deep_view()[key] == self.deep_view()[key],
            decreases self.entries@.len() - i,
        {
            let ghost before = r;
            let ghost key = self.entries@[i as int].0@;
            proof {
                self.lemma_entry(i as int);
                assert(!r.keys().contains(key)) by {
                    if r.keys().contains(key) {
                        let j = choose|j: int| 0 <= j < r.keys().len() && r.keys()[j] == key;
                        assert(self.keys()[j] == self.entries@[j].0@);
                        assert(self.entries@[j].0@ == self.entries@[i as int].0@);
                    }
                }
            }
            r.insert(self.entries[i].0.clone(), self.entries[i].1.duplicate());
            proof {
                assert(self.keys().take(i as int + 1) =~= self.keys().take(i as int).push(key));
                assert forall|x: Text| r.keys().contains(x) implies x == key
                    || before.keys().contains(x) by {
                    let j = choose|j: int| 0 <= j < r.keys().len() && r.keys()[j] == x;
                    if j < before.keys().len() {
                        assert(before.keys()[j] == x);
                    }
                }
                assert forall|x: Text| before.keys().contains(x) || x == key implies #[trigger] r.keys().contains(
                    x,
                ) by {
                    if x == key {
                        assert(r.keys()[i as int] == key);
                    } else {
                        let j = choose|j: int| 0 <= j < before.keys().len() && before.keys()[j] == x;
                        assert(r.keys()[j] == x);
                    }
                }
            }
            i = i + 1;
        }
        proof {
            assert(self.keys().take(i as int) =~= self.keys());
            assert(r.deep_view() =~= self.deep_view());
        }
        r
    }
}

impl<V: Same> Same for StringMap<V> {
    fn same(&self, other: &Self) -> (r: bool) {
        let ghost x = self.deep_view();
        let ghost y = other.deep_view();
        let n: usize = self.len();
        let mut i: usize = 0;
        while i < n
            invariant
                i <= n == self.keys().len(),
                x == self.deep_view(),
                y == other.deep_view(),
                forall|k: int|
                    0 <= k < i ==> y.contains_key(#[trigger] self.keys()[k])
                        && x[self.keys()[k]] == y[self.keys()[k]],
            decreases n - i,
        {
            let key = self.key_at(i);
            match other.get(key.as_str()) {
                Some(v) => {
                    if !self.value_at(i).same(v) {
                        return false;
                    }
                },
                None => {
                    return false;
                },
            }
            i = i + 1;
        }
        let m: usize = other.len();
        let mut j: usize = 0;
        while j < m
            invariant
                j <= m == other.keys().len(),
                x == self.deep_view(),
                y == other.deep_view(),
                forall|k: int| 0 <= k < j ==> x.contains_key(#[trigger] other.keys()[k]),
            decreases m - j,
        {
            if !self.contains_key(other.key_at(j).as_str()) {
                return false;
            }
            j = j + 1;
        }
        proof {
            assert forall|key: Text|
                #![trigger x.dom().contains(key)]
                #![trigger y.dom().contains(key)]
                x.dom().contains(key) == y.dom().contains(key) && (x.dom().contains(key) ==> x[key]
                    == y[key]) by {
                if x.contains_key(key) {
                    assert(self.keys().contains(key));
                    let k = choose|k: int| 0 <= k < self.keys().len() && self.keys()[k] == key;
                    assert(y.contains_key(self.keys()[k]));
                }
                if y.contains_key(key) {
                    assert(other.keys().contains(key));
                    let k = choose|k: int| 0 <= k < other.keys().len() && other.keys()[k] == key;
                    assert(x.contains_key(other.keys()[k]));
                }
            }
            assert(x =~= y);
        }
        true
    }
}

impl<V: DeepView> Default for StringMap<V> {
    fn default() -> (r: Self)
        ensures
            r.deep_view() == Map::<Text, V::V>::empty(),
    {
        StringMap::new()
    }
}

} // verus!
