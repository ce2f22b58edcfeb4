//! A map keyed by text, kept as a list of entries in which no key stands twice.

use crate::text::same_text;
use vstd::prelude::*;

verus! {

/// Whether some entry of `e` has the key `k`.
pub open spec fn has_key<V>(e: Seq<(Seq<char>, V)>, k: Seq<char>) -> bool {
    exists|i: int| 0 <= i < e.len() && (#[trigger] e[i]).0 == k
}

/// The index of an entry of `e` with the key `k`.
pub open spec fn key_index<V>(e: Seq<(Seq<char>, V)>, k: Seq<char>) -> int {
    choose|i: int| 0 <= i < e.len() && (#[trigger] e[i]).0 == k
}

/// Whether no key stands twice in `e`.
pub open spec fn distinct_keys<V>(e: Seq<(Seq<char>, V)>) -> bool {
    forall|i: int, j: int| 0 <= i < j < e.len() ==> (#[trigger] e[i]).0 != (#[trigger] e[j]).0
}

/// The map that the entries `e` spell out: each key with the value that stands
/// beside it.
pub open spec fn map_of<V>(e: Seq<(Seq<char>, V)>) -> Map<Seq<char>, V> {
    Map::new(|k: Seq<char>| has_key(e, k), |k: Seq<char>| e[key_index(e, k)].1)
}

/// Under distinct keys, the entry at `i` is what the map holds for its key.
pub proof fn lemma_map_of_entry<V>(e: Seq<(Seq<char>, V)>, i: int)
    requires
        distinct_keys(e),
        0 <= i < e.len(),
    ensures
        map_of(e).contains_key(e[i].0),
        map_of(e)[e[i].0] == e[i].1,
{
    let j = key_index(e, e[i].0);
    assert(j == i);
}

/// A map from text to `V`.
#[derive(Debug)]
pub struct TextMap<V> {
    entries: Vec<(String, V)>,
}

impl<V> TextMap<V> {
    #[verifier::type_invariant]
    spec fn no_key_twice(&self) -> bool {
        distinct_keys(self.entries())
    }

    /// The entries in the order in which the map hands them out, each key as text.
    pub closed spec fn entries(&self) -> Seq<(Seq<char>, V)> {
        Seq::new(self.entries@.len(), |i: int| (self.entries@[i].0@, self.entries@[i].1))
    }

    /// The map as a mathematical map.
    pub open spec fn view(&self) -> Map<Seq<char>, V> {
        map_of(self.entries())
    }

    /// Every value of the map is smaller than the map, so that a definition
    /// over a structure that holds itself in such a map can descend into it.
    pub proof fn lemma_value_decreases(self, key: Seq<char>)
        requires
            self@.contains_key(key),
        ensures
            decreases_to!(self => self@[key]),
    {
        let i = key_index(self.entries(), key);
        assert(self.entries()[i].1 == self.entries@[i].1);
        vstd::std_specs::vec::axiom_vec_index_decreases(self.entries, i);
        assert(decreases_to!(self => self.entries));
        assert(decreases_to!(self.entries => self.entries[i]));
        assert(decreases_to!(self.entries[i] => self.entries[i].1));
    }

    /// The empty map.
    pub fn new() -> (m: Self)
        ensures
            m.entries() == Seq::<(Seq<char>, V)>::empty(),
            m@ == Map::<Seq<char>, V>::empty(),
    {
        let m = TextMap { entries: Vec::new() };
        assert(m.entries() == Seq::<(Seq<char>, V)>::empty());
        assert(m@ == Map::<Seq<char>, V>::empty());
        m
    }

    /// The number of entries.
    pub fn len(&self) -> (n: usize)
        ensures
            n == self.entries().len(),
    {
        self.entries.len()
    }

    /// The entry at `i`, or `None` past the last one.
    pub fn entry(&self, i: usize) -> (r: Option<(&String, &V)>)
        ensures
            r is Some <==> i < self.entries().len(),
            r matches Some((k, v)) ==> self.entries()[i as int] == (k@, *v),
    {
        if i < self.entries.len() {
            let e = &self.entries[i];
            Some((&e.0, &e.1))
        } else {
            None
        }
    }

    /// The index of the entry whose key is `key`, or the number of entries
    /// where there is none.
    fn position(&self, key: &str) -> (i: usize)
        ensures
            i <= self.entries().len(),
            i < self.entries().len() ==> self.entries()[i as int].0 == key@,
            i == self.entries().len() ==> !has_key(self.entries(), key@),
    {
        let mut i: usize = 0;
        while i < self.entries.len()
            invariant
                i <= self.entries().len(),
                self.entries().len() == self.entries@.len(),
                forall|j: int| 0 <= j < i ==> (#[trigger] self.entries()[j]).0 != key@,
            decreases self.entries@.len() - i,
        {
            if same_text(self.entries[i].0.as_str(), key) {
                return i;
            }
            i += 1;
        }
        i
    }

    /// The value held for `key`.
    pub fn get(&self, key: &str) -> (r: Option<&V>)
        ensures
            r is Some <==> self@.contains_key(key@),
            r matches Some(v) ==> self@[key@] == *v,
    {
        proof {
            use_type_invariant(self);
        }
        let i = self.position(key);
        if i < self.entries.len() {
            proof {
                lemma_map_of_entry(self.entries(), i as int);
            }
            Some(&self.entries[i].1)
        } else {
            None
        }
    }

    /// The map without `key`, and the value that it held for it.
    pub fn remove(self, key: &str) -> (r: (Self, Option<V>))
        ensures
            r.0@ == self@.remove(key@),
            r.1 is Some <==> self@.contains_key(key@),
            r.1 matches Some(v) ==> self@[key@] == v,
    {
        proof {
            use_type_invariant(&self);
        }
        let i = self.position(key);
        let ghost before = self.entries();
        if i < self.entries.len() {
            let mut entries = self.entries;
            let old = entries.remove(i);
            proof {
                lemma_map_of_entry(before, i as int);
                lemma_map_of_remove(before, i as int);
                assert(Seq::new(entries@.len(), |j: int| (entries@[j].0@, entries@[j].1))
                    == before.remove(i as int));
            }
            (TextMap { entries }, Some(old.1))
        } else {
            assert(self@ == self@.remove(key@));
            (self, None)
        }
    }

    /// The map with `value` held for `key`, in place of what it held for it before.
    pub fn insert(self, key: String, value: V) -> (m: Self)
        ensures
            m@ == self@.insert(key@, value),
    {
        let ghost before = self@;
        let (rest, _) = self.remove(key.as_str());
        proof {
            use_type_invariant(&rest);
        }
        let ghost e = rest.entries();
        let mut entries = rest.entries;
        entries.push((key, value));
        proof {
            let f = e.push((key@, value));
            assert(Seq::new(entries@.len(), |i: int| (entries@[i].0@, entries@[i].1)) == f);
            assert(!rest@.contains_key(key@));
            assert(!has_key(e, key@));
            lemma_map_of_push(e, key@, value);
            assert(before.remove(key@).insert(key@, value) == before.insert(key@, value));
        }
        TextMap { entries }
    }
}

impl<V: Clone> Clone for TextMap<V> {
    /// A map with the same keys in the same order, each beside a clone of its value.
    fn clone(&self) -> (m: Self)
        ensures
            m.entries().len() == self.entries().len(),
            forall|i: int|
                0 <= i < self.entries().len() ==> (#[trigger] m.entries()[i]).0
                    == self.entries()[i].0,
    {
        proof {
            use_type_invariant(self);
        }
        let mut entries: Vec<(String, V)> = Vec::new();
        let mut i: usize = 0;
        while i < self.entries.len()
            invariant
                i <= self.entries@.len(),
                entries@.len() == i,
                forall|j: int| 0 <= j < i ==> (#[trigger] entries@[j]).0@ == self.entries@[j].0@,
            decreases self.entries@.len() - i,
        {
            let e = &self.entries[i];
            entries.push((e.0.clone(), e.1.clone()));
            i += 1;
        }
        proof {
            let f = Seq::new(entries@.len(), |j: int| (entries@[j].0@, entries@[j].1));
            assert forall|a: int, b: int| 0 <= a < b < f.len() implies (#[trigger] f[a]).0 != (
            #[trigger] f[b]).0 by {
                assert(self.entries()[a].0 != self.entries()[b].0);
            }
        }
        TextMap { entries }
    }
}

/// Taking the entry at `i` out of distinct entries takes its key out of the map.
pub proof fn lemma_map_of_remove<V>(e: Seq<(Seq<char>, V)>, i: int)
    requires
        distinct_keys(e),
        0 <= i < e.len(),
    ensures
        distinct_keys(e.remove(i)),
        map_of(e.remove(i)) == map_of(e).remove(e[i].0),
{
    let f = e.remove(i);
    assert forall|a: int, b: int| 0 <= a < b < f.len() implies (#[trigger] f[a]).0 != (
    #[trigger] f[b]).0 by {
        let a2 = if a < i { a } else { a + 1 };
        let b2 = if b < i { b } else { b + 1 };
        assert(f[a] == e[a2]);
        assert(f[b] == e[b2]);
    }
    assert forall|k: Seq<char>| #[trigger] has_key(f, k) <==> (has_key(e, k) && k != e[i].0) by {
        if has_key(f, k) {
            let a = key_index(f, k);
            let a2 = if a < i { a } else { a + 1 };
            assert(f[a] == e[a2]);
        }
        if has_key(e, k) && k != e[i].0 {
            let a = key_index(e, k);
            let a2 = if a < i { a } else { a - 1 };
            assert(f[a2] == e[a]);
        }
    }
    assert forall|k: Seq<char>| has_key(f, k) implies f[key_index(f, k)].1 == e[key_index(e, k)].1 by {
        let a = key_index(f, k);
        let a2 = if a < i { a } else { a + 1 };
        assert(f[a] == e[a2]);
        let b = key_index(e, k);
        assert(b == a2);
    }
    assert(map_of(f) =~= map_of(e).remove(e[i].0));
}

/// Adding an entry with a new key to distinct entries inserts it into the map.
pub proof fn lemma_map_of_push<V>(e: Seq<(Seq<char>, V)>, k: Seq<char>, v: V)
    requires
        distinct_keys(e),
        !has_key(e, k),
    ensures
        distinct_keys(e.push((k, v))),
        map_of(e.push((k, v))) == map_of(e).insert(k, v),
{
    let f = e.push((k, v));
    assert forall|a: int, b: int| 0 <= a < b < f.len() implies (#[trigger] f[a]).0 != (
    #[trigger] f[b]).0 by {
        if b == e.len() {
            assert(f[a] == e[a]);
        } else {
            assert(f[a] == e[a]);
            assert(f[b] == e[b]);
        }
    }
    assert forall|x: Seq<char>| #[trigger] has_key(f, x) <==> (has_key(e, x) || x == k) by {
        if has_key(f, x) {
            let a = key_index(f, x);
            if a < e.len() {
                assert(f[a] == e[a]);
            }
        }
        if has_key(e, x) {
            let a = key_index(e, x);
            assert(f[a] == e[a]);
        }
        if x == k {
            assert(f[e.len() as int].0 == k);
        }
    }
    assert forall|x: Seq<char>| has_key(f, x) implies f[key_index(f, x)].1 == (if x == k {
        v
    } else {
        e[key_index(e, x)].1
    }) by {
        let a = key_index(f, x);
        if x == k {
            if a < e.len() {
                assert(f[a] == e[a]);
            }
        } else {
            assert(f[a] == e[a]);
            let b = key_index(e, x);
            assert(f[b] == e[b]);
        }
    }
    assert(map_of(f) =~= map_of(e).insert(k, v));
}

} // verus!
