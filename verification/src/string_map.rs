//! Maps and sets keyed by strings.
//!
//! [`StringMap`] keeps its entries in insertion order and holds no key twice;
//! its view is the mathematical map from keys to values. [`StringSet`] is the
//! set counterpart.

use crate::text;
use vstd::prelude::*;

verus! {

/// A value that can be copied out exactly.
pub trait Duplicate: Sized {
    /// A value equal to `self`.
    fn duplicate(&self) -> (r: Self)
        ensures
            r == *self,
    ;
}

impl Duplicate for String {
    fn duplicate(&self) -> (r: Self) {
        self.clone()
    }
}

/// A vector with the same items.
pub fn duplicate_vec<T: Duplicate>(list: &Vec<T>) -> (r: Vec<T>)
    ensures
        r@ == list@,
{
    let mut out: Vec<T> = Vec::new();
    let mut i: usize = 0;
    while i < list.len()
        invariant
            i <= list@.len(),
            out@ == list@.take(i as int),
        decreases list.len() - i,
    {
        out.push(list[i].duplicate());
        i += 1;
        assert(list@.take(i as int) =~= list@.take(i - 1).push(list@[i - 1]));
    }
    assert(list@.take(i as int) =~= list@);
    out
}

/// An optional value equal to `o`.
pub fn duplicate_opt<T: Duplicate>(o: &Option<T>) -> (r: Option<T>)
    ensures
        r == *o,
{
    match o {
        Some(t) => Some(t.duplicate()),
        None => None,
    }
}

/// Whether no two entries have the same key.
pub open spec fn distinct_keys<V>(s: Seq<(Seq<char>, V)>) -> bool {
    forall|i: int, j: int| 0 <= i < j < s.len() ==> #[trigger] s[i].0 != #[trigger] s[j].0
}

/// Whether `k` is the key of some entry.
pub open spec fn has_key<V>(s: Seq<(Seq<char>, V)>, k: Seq<char>) -> bool {
    exists|i: int| 0 <= i < s.len() && (#[trigger] s[i]).0 == k
}

/// The position of the entry with key `k`.
pub open spec fn key_index<V>(s: Seq<(Seq<char>, V)>, k: Seq<char>) -> int {
    choose|i: int| 0 <= i < s.len() && (#[trigger] s[i]).0 == k
}

/// The map that a sequence of entries stands for.
pub open spec fn map_of<V>(s: Seq<(Seq<char>, V)>) -> Map<Seq<char>, V> {
    Map::new(|k: Seq<char>| has_key(s, k), |k: Seq<char>| s[key_index(s, k)].1)
}

/// With distinct keys, every entry is in the map under its own key.
pub proof fn lemma_map_of<V>(s: Seq<(Seq<char>, V)>)
    requires
        distinct_keys(s),
    ensures
        forall|i: int|
            0 <= i < s.len() ==> map_of(s).contains_key((#[trigger] s[i]).0) && map_of(s)[s[i].0]
                == s[i].1,
        forall|k: Seq<char>| #[trigger] map_of(s).contains_key(k) == has_key(s, k),
{
    assert forall|i: int| 0 <= i < s.len() implies map_of(s).contains_key((#[trigger] s[i]).0)
        && map_of(s)[s[i].0] == s[i].1 by {
        assert(has_key(s, s[i].0));
        let j = key_index(s, s[i].0);
        assert(0 <= j < s.len() && s[j].0 == s[i].0);
        if i < j {
            assert(s[i].0 != s[j].0);
        } else if j < i {
            assert(s[j].0 != s[i].0);
        }
    }
}

/// A map with string keys.
#[derive(Debug)]
pub struct StringMap<V> {
    entries: Vec<(String, V)>,
}

impl<V> View for StringMap<V> {
    type V = Map<Seq<char>, V>;

    open spec fn view(&self) -> Map<Seq<char>, V> {
        map_of(self.entries())
    }
}

impl<V> StringMap<V> {
    /// The entries in insertion order.
    pub closed spec fn entries(&self) -> Seq<(Seq<char>, V)> {
        pairs(self.entries@)
    }

    #[verifier::type_invariant]
    spec fn keys_are_distinct(self) -> bool {
        distinct_keys(pairs(self.entries@))
    }

    /// The empty map.
    pub fn new() -> (r: Self)
        ensures
            r@ == Map::<Seq<char>, V>::empty(),
            r.entries().len() == 0,
    {
        let r: StringMap<V> = StringMap { entries: Vec::new() };
        assert(r@ =~= Map::<Seq<char>, V>::empty());
        r
    }

    /// The number of entries.
    pub fn len(&self) -> (n: usize)
        ensures
            n == self.entries().len(),
            distinct_keys(self.entries()),
    {
        proof {
            use_type_invariant(self);
        }
        self.entries.len()
    }

    /// The key of the entry at position `i`.
    pub fn key_at(&self, i: usize) -> (k: &str)
        requires
            i < self.entries().len(),
        ensures
            k@ == self.entries()[i as int].0,
            self@.contains_key(k@),
            self@[k@] == self.entries()[i as int].1,
    {
        proof {
            use_type_invariant(self);
            lemma_map_of(self.entries());
            assert(self.entries()[i as int].0 == self.entries@[i as int].0@);
        }
        self.entries[i].0.as_str()
    }

    /// The value of the entry at position `i`.
    pub fn value_at(&self, i: usize) -> (v: &V)
        requires
            i < self.entries().len(),
        ensures
            *v == self.entries()[i as int].1,
    {
        &self.entries[i].1
    }

    /// The position of the entry with key `key`.
    fn find(&self, key: &str) -> (r: Option<usize>)
        ensures
            match r {
                Some(i) => i < self.entries@.len() && self.entries@[i as int].0@ == key@,
                None => !has_key(self.entries(), key@),
            },
    {
        let mut i: usize = 0;
        while i < self.entries.len()
            invariant
                i <= self.entries@.len(),
                forall|j: int| 0 <= j < i ==> (#[trigger] self.entries@[j]).0@ != key@,
            decreases self.entries.len() - i,
        {
            if text::same(self.entries[i].0.as_str(), key) {
                return Some(i);
            }
            i += 1;
        }
        assert forall|j: int| 0 <= j < self.entries().len() implies (#[trigger] self.entries()[j]).0
            != key@ by {
            assert(self.entries()[j].0 == self.entries@[j].0@);
        }
        None
    }

    /// The value stored under `key`.
    pub fn get(&self, key: &str) -> (r: Option<&V>)
        ensures
            match r {
                Some(v) => self@.contains_key(key@) && *v == self@[key@],
                None => !self@.contains_key(key@),
            },
    {
        proof {
            use_type_invariant(self);
            lemma_map_of(self.entries());
        }
        match self.find(key) {
            Some(i) => {
                assert(self.entries()[i as int] == (self.entries@[i as int].0@, self.entries@[i as int].1));
                Some(&self.entries[i].1)
            },
            None => None,
        }
    }

    /// Whether `key` is present.
    pub fn contains_key(&self, key: &str) -> (r: bool)
        ensures
            r == self@.contains_key(key@),
    {
        self.get(key).is_some()
    }

    /// Stores `value` under `key`, replacing what was there.
    pub fn insert(&mut self, key: String, value: V)
        ensures
            final(self)@ == old(self)@.insert(key@, value),
    {
        proof {
            use_type_invariant(&*self);
            lemma_map_of(self.entries());
        }
        let ghost before = self.entries();
        let found: Option<usize> = self.find(key.as_str());
        let mut entries: Vec<(String, V)> = Vec::new();
        std::mem::swap(&mut entries, &mut self.entries);
        let ghost k = key@;
        assert(pairs(entries@) == before);
        match found {
            Some(i) => {
                entries.set(i, (key, value));
                proof {
                    assert(pairs(entries@) =~= before.update(i as int, (k, value)));
                    assert(before[i as int].0 == k);
                }
            },
            None => {
                entries.push((key, value));
                proof {
                    assert(pairs(entries@) =~= before.push((k, value)));
                    assert forall|j: int| 0 <= j < before.len() implies (#[trigger] before[j]).0
                        != k by {
                        assert(has_key(before, before[j].0));
                    }
                }
            },
        }
        proof {
            lemma_map_insert(before, pairs(entries@), k, value);
        }
        self.entries = entries;
    }

    /// Removes the entry with key `key`.
    pub fn remove(&mut self, key: &str) -> (r: Option<V>)
        ensures
            final(self)@ == old(self)@.remove(key@),
            match r {
                Some(v) => old(self)@.contains_key(key@) && v == old(self)@[key@],
                None => !old(self)@.contains_key(key@),
            },
    {
        proof {
            use_type_invariant(&*self);
            lemma_map_of(self.entries());
        }
        let ghost before = self.entries();
        let found: Option<usize> = self.find(key);
        match found {
            Some(i) => {
                let mut entries: Vec<(String, V)> = Vec::new();
                std::mem::swap(&mut entries, &mut self.entries);
                assert(pairs(entries@) == before);
                let taken: (String, V) = entries.remove(i);
                proof {
                    assert(before[i as int] == (key@, taken.1));
                    assert(pairs(entries@) =~= before.remove(i as int));
                    lemma_map_remove(before, i as int);
                }
                self.entries = entries;
                Some(taken.1)
            },
            None => {
                assert(self@.remove(key@) =~= self@);
                None
            },
        }
    }
}

impl<V: Duplicate> StringMap<V> {
    /// A map with the same entries.
    pub fn duplicate_map(&self) -> (r: Self)
        ensures
            r@ == self@,
            r.entries() == self.entries(),
    {
        proof {
            use_type_invariant(self);
        }
        let mut entries: Vec<(String, V)> = Vec::new();
        let mut i: usize = 0;
        while i < self.entries.len()
            invariant
                i <= self.entries@.len(),
                entries@.len() == i,
                forall|j: int|
                    0 <= j < i ==> (#[trigger] entries@[j]).0@ == self.entries@[j].0@
                        && entries@[j].1 == self.entries@[j].1,
            decreases self.entries.len() - i,
        {
            entries.push((self.entries[i].0.clone(), self.entries[i].1.duplicate()));
            i += 1;
        }
        assert(pairs(entries@) =~= pairs(self.entries@));
        StringMap { entries }
    }
}

spec fn pairs<V>(s: Seq<(String, V)>) -> Seq<(Seq<char>, V)> {
    Seq::new(s.len(), |i: int| (s[i].0@, s[i].1))
}

proof fn lemma_map_insert<V>(
    before: Seq<(Seq<char>, V)>,
    after: Seq<(Seq<char>, V)>,
    k: Seq<char>,
    v: V,
)
    requires
        distinct_keys(before),
        (after == before.push((k, v)) && forall|j: int|
            0 <= j < before.len() ==> (#[trigger] before[j]).0 != k) || exists|i: int|
            0 <= i < before.len() && (#[trigger] before[i]).0 == k && after == before.update(
                i,
                (k, v),
            ),
    ensures
        distinct_keys(after),
        map_of(after) == map_of(before).insert(k, v),
{
    assert forall|i: int, j: int| 0 <= i < j < after.len() implies #[trigger] after[i].0
        != #[trigger] after[j].0 by {
        if j < before.len() {
            assert(after[i].0 == before[i].0);
            assert(after[j].0 == before[j].0);
        }
    }
    lemma_map_of(before);
    lemma_map_of(after);
    let m = map_of(before).insert(k, v);
    let n = map_of(after);
    assert forall|x: Seq<char>| #[trigger] n.contains_key(x) == m.contains_key(x) && (n.contains_key(
        x,
    ) ==> n[x] == m[x]) by {
        if n.contains_key(x) {
            let i = key_index(after, x);
            assert(after[i].0 == x);
            if x != k {
                assert(before[i] == after[i]);
            }
        }
        if m.contains_key(x) && x != k {
            let i = key_index(before, x);
            assert(before[i].0 == x);
            assert(after[i] == before[i]);
        }
        if x == k {
            if after.len() > before.len() {
                assert(after[before.len() as int].0 == k);
            } else {
                let i = choose|i: int|
                    0 <= i < before.len() && (#[trigger] before[i]).0 == k && after
                        == before.update(i, (k, v));
                assert(after[i].0 == k);
            }
        }
    }
    assert(n =~= m);
}

proof fn lemma_map_remove<V>(before: Seq<(Seq<char>, V)>, at: int)
    requires
        distinct_keys(before),
        0 <= at < before.len(),
    ensures
        distinct_keys(before.remove(at)),
        map_of(before.remove(at)) == map_of(before).remove(before[at].0),
{
    let after = before.remove(at);
    let k = before[at].0;
    assert forall|i: int, j: int| 0 <= i < j < after.len() implies #[trigger] after[i].0
        != #[trigger] after[j].0 by {
        let x = if i < at { i } else { i + 1 };
        let y = if j < at { j } else { j + 1 };
        assert(before[x].0 != before[y].0);
    }
    lemma_map_of(before);
    lemma_map_of(after);
    let m = map_of(before).remove(k);
    let n = map_of(after);
    assert forall|x: Seq<char>| #[trigger] n.contains_key(x) == m.contains_key(x) && (n.contains_key(
        x,
    ) ==> n[x] == m[x]) by {
        if n.contains_key(x) {
            let i = key_index(after, x);
            let j = if i < at { i } else { i + 1 };
            assert(after[i] == before[j]);
            if j < at {
                assert(before[j].0 != before[at].0);
            } else {
                assert(before[at].0 != before[j].0);
            }
        }
        if m.contains_key(x) {
            let j = key_index(before, x);
            let i = if j < at { j } else { j - 1 };
            assert(before[j].0 == x);
            assert(after[i] == before[j]);
        }
    }
    assert(n =~= m);
}

/// A map of strings with its values taken by their characters.
pub open spec fn text_map(m: Map<Seq<char>, String>) -> Map<Seq<char>, Seq<char>> {
    m.map_values(|s: String| s@)
}

/// Whether every entry of `a` is in `b` with the same text.
fn covered(a: &StringMap<String>, b: &StringMap<String>) -> (r: bool)
    ensures
        r == forall|k: Seq<char>| #[trigger]
            a@.contains_key(k) ==> b@.contains_key(k) && b@[k]@ == a@[k]@,
{
    let n: usize = a.len();
    proof {
        lemma_map_of(a.entries());
    }
    let mut i: usize = 0;
    while i < n
        invariant
            i <= n,
            n == a.entries().len(),
            distinct_keys(a.entries()),
            forall|j: int|
                0 <= j < i ==> b@.contains_key((#[trigger] a.entries()[j]).0)
                    && b@[a.entries()[j].0]@ == a.entries()[j].1@,
        decreases n - i,
    {
        let k: &str = a.key_at(i);
        match b.get(k) {
            Some(v) => {
                if !text::same(v.as_str(), a.value_at(i).as_str()) {
                    assert(a@.contains_key(k@));
                    return false;
                }
            },
            None => {
                assert(a@.contains_key(k@));
                return false;
            },
        }
        i += 1;
    }
    assert forall|k: Seq<char>| #[trigger] a@.contains_key(k) implies b@.contains_key(k) && b@[k]@
        == a@[k]@ by {
        let j = key_index(a.entries(), k);
        assert(a.entries()[j].0 == k);
    }
    true
}

/// Whether two maps hold the same texts under the same keys.
pub fn same_text_map(a: &StringMap<String>, b: &StringMap<String>) -> (r: bool)
    ensures
        r == (text_map(a@) == text_map(b@)),
{
    let r: bool = covered(a, b) && covered(b, a);
    proof {
        let x = text_map(a@);
        let y = text_map(b@);
        if r {
            assert(x =~= y);
        } else if x == y {
            assert forall|k: Seq<char>| #[trigger] a@.contains_key(k) implies b@.contains_key(k)
                && b@[k]@ == a@[k]@ by {
                assert(x.contains_key(k) && x[k] == a@[k]@);
                assert(y.contains_key(k) && y[k] == b@[k]@);
            }
            assert forall|k: Seq<char>| #[trigger] b@.contains_key(k) implies a@.contains_key(k)
                && a@[k]@ == b@[k]@ by {
                assert(y.contains_key(k) && y[k] == b@[k]@);
                assert(x.contains_key(k) && x[k] == a@[k]@);
            }
        }
    }
    r
}

/// A set of strings.
#[derive(Debug)]
pub struct StringSet {
    items: StringMap<()>,
}

impl View for StringSet {
    type V = Set<Seq<char>>;

    closed spec fn view(&self) -> Set<Seq<char>> {
        self.items@.dom()
    }
}

impl StringSet {
    /// The empty set.
    pub fn new() -> (r: Self)
        ensures
            r@ == Set::<Seq<char>>::empty(),
    {
        let r: StringSet = StringSet { items: StringMap::new() };
        assert(r@ =~= Set::<Seq<char>>::empty());
        r
    }

    /// Adds `item`.
    pub fn insert(&mut self, item: String)
        ensures
            final(self)@ == old(self)@.insert(item@),
    {
        self.items.insert(item, ());
        assert(self@ =~= old(self)@.insert(item@));
    }

    /// Whether `item` is in the set.
    pub fn contains(&self, item: &str) -> (r: bool)
        ensures
            r == self@.contains(item@),
    {
        self.items.contains_key(item)
    }

    /// Whether the set has no item.
    pub fn is_empty(&self) -> (r: bool)
        ensures
            r == (self@ == Set::<Seq<char>>::empty()),
    {
        let n: usize = self.items.len();
        proof {
            lemma_map_of(self.items.entries());
            if n == 0 {
                assert(self@ =~= Set::<Seq<char>>::empty());
            } else {
                assert(has_key(self.items.entries(), self.items.entries()[0].0));
                assert(self@.contains(self.items.entries()[0].0));
            }
        }
        n == 0
    }

    /// The items, each once.
    fn to_vec(&self) -> (r: Vec<String>)
        ensures
            text::views(r@).no_duplicates(),
            text::views(r@).to_set() == self@,
    {
        let n: usize = self.items.len();
        let ghost entries = self.items.entries();
        proof {
            lemma_map_of(entries);
        }
        let mut out: Vec<String> = Vec::new();
        let mut i: usize = 0;
        while i < n
            invariant
                i <= n,
                n == entries.len(),
                entries == self.items.entries(),
                out@.len() == i,
                forall|j: int| 0 <= j < i ==> (#[trigger] out@[j])@ == entries[j].0,
            decreases n - i,
        {
            out.push(self.items.key_at(i).to_owned());
            i += 1;
        }
        proof {
            let v = text::views(out@);
            assert forall|j: int, k: int| 0 <= j < v.len() && 0 <= k < v.len() && j != k implies v[j]
                != v[k] by {
                assert(v[j] == entries[j].0);
                assert(v[k] == entries[k].0);
                if j < k {
                    assert(entries[j].0 != entries[k].0);
                } else {
                    assert(entries[k].0 != entries[j].0);
                }
            }
            assert forall|x: Seq<char>| #[trigger] v.to_set().contains(x) == self@.contains(x) by {
                if v.contains(x) {
                    let j = choose|j: int| 0 <= j < v.len() && v[j] == x;
                    assert(entries[j].0 == x);
                }
                if self@.contains(x) {
                    assert(self.items@.contains_key(x));
                    let j = key_index(entries, x);
                    assert(entries[j].0 == x);
                    assert(v[j] == x);
                }
            }
            assert(v.to_set() =~= self@);
        }
        out
    }

    /// The items in ascending order, each once.
    pub fn sorted(&self) -> (r: Vec<String>)
        ensures
            text::ascending(text::views(r@)),
            text::views(r@).no_duplicates(),
            text::views(r@).to_set() == self@,
    {
        let items: Vec<String> = self.to_vec();
        let ghost v = text::views(items@);
        let r: Vec<String> = text::sort_strings(items);
        proof {
            broadcast use vstd::seq_lib::group_to_multiset_ensures;

            let w = text::views(r@);
            v.lemma_multiset_has_no_duplicates();
            assert forall|x: Seq<char>| w.to_multiset().contains(x) implies w.to_multiset().count(x)
                == 1 by {
                assert(v.to_multiset().contains(x));
            }
            w.lemma_multiset_has_no_duplicates_conv();
            assert forall|x: Seq<char>| #[trigger] w.to_set().contains(x) == v.to_set().contains(
                x,
            ) by {
                vstd::seq_lib::to_multiset_contains(w, x);
                vstd::seq_lib::to_multiset_contains(v, x);
            }
            assert(w.to_set() =~= v.to_set());
        }
        r
    }

    /// Whether every item of `other` is in this set.
    pub fn is_superset(&self, other: &StringSet) -> (r: bool)
        ensures
            r == other@.subset_of(self@),
    {
        let items: Vec<String> = other.to_vec();
        let ghost v = text::views(items@);
        let mut i: usize = 0;
        while i < items.len()
            invariant
                i <= items@.len(),
                v == text::views(items@),
                v.to_set() == other@,
                forall|j: int| 0 <= j < i ==> self@.contains(#[trigger] v[j]),
            decreases items.len() - i,
        {
            if !self.contains(items[i].as_str()) {
                assert(v[i as int] == items@[i as int]@);
                assert(v.to_set().contains(v[i as int]));
                return false;
            }
            assert(v[i as int] == items@[i as int]@);
            i += 1;
        }
        assert forall|x: Seq<char>| other@.contains(x) implies self@.contains(x) by {
            assert(v.to_set().contains(x));
            let j = choose|j: int| 0 <= j < v.len() && v[j] == x;
            assert(self@.contains(v[j]));
        }
        true
    }

    /// Whether the two sets have the same items.
    pub fn same_set(&self, other: &StringSet) -> (r: bool)
        ensures
            r == (self@ == other@),
    {
        let r: bool = self.is_superset(other) && other.is_superset(self);
        proof {
            if r {
                assert(self@ =~= other@);
            }
        }
        r
    }

    /// Adds every item of `other`.
    pub fn insert_all(&mut self, other: &StringSet)
        ensures
            final(self)@ == old(self)@.union(other@),
    {
        let items: Vec<String> = other.to_vec();
        let ghost v = text::views(items@);
        let ghost before = self@;
        let mut i: usize = 0;
        while i < items.len()
            invariant
                i <= items@.len(),
                v == text::views(items@),
                v.to_set() == other@,
                self@ == before.union(v.take(i as int).to_set()),
            decreases items.len() - i,
        {
            let ghost at = self@;
            self.insert(items[i].clone());
            proof {
                let x = v.take(i as int);
                let y = v.take(i + 1);
                assert(v[i as int] == items@[i as int]@);
                assert(y =~= x.push(v[i as int]));
                assert forall|s: Seq<char>| #[trigger] y.to_set().contains(s) == (x.to_set().contains(
                    s,
                ) || s == v[i as int]) by {
                    if x.contains(s) {
                        let j = choose|j: int| 0 <= j < x.len() && x[j] == s;
                        assert(y[j] == s);
                    }
                    assert(y[i as int] == v[i as int]);
                    if y.contains(s) {
                        let j = choose|j: int| 0 <= j < y.len() && y[j] == s;
                        if j < i {
                            assert(x[j] == s);
                        }
                    }
                }
                assert(self@ =~= before.union(y.to_set()));
            }
            i += 1;
        }
        assert(v.take(i as int) =~= v);
    }

    /// A set with the same items.
    pub fn duplicate_set(&self) -> (r: Self)
        ensures
            r@ == self@,
    {
        StringSet { items: self.items.duplicate_map() }
    }
}

impl Duplicate for () {
    fn duplicate(&self) -> (r: Self) {
        ()
    }
}

} // verus!
