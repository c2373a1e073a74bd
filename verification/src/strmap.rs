//! A map keyed by strings, kept as an association list in insertion order.
use vstd::prelude::*;
use crate::text::str_eq;

verus! {

/// The keys of an association list, as character sequences.
pub open spec fn keys_of<V>(e: Seq<(String, V)>) -> Seq<Seq<char>> {
    e.map_values(|p: (String, V)| p.0@)
}

/// No key occurs twice.
pub open spec fn unique_keys<V>(e: Seq<(String, V)>) -> bool {
    forall|i: int, j: int|
        0 <= i < e.len() && 0 <= j < e.len() && i != j ==> #[trigger] e[i].0@ != #[trigger] e[j].0@
}

/// The map an association list with unique keys denotes.
pub open spec fn assoc_map<V>(e: Seq<(String, V)>) -> Map<Seq<char>, V> {
    Map::new(
        |k: Seq<char>| exists|i: int| 0 <= i < e.len() && e[i].0@ == k,
        |k: Seq<char>| e[choose|i: int| 0 <= i < e.len() && e[i].0@ == k].1,
    )
}

/// With unique keys, the value an entry holds is the map's value at its key.
pub proof fn lemma_assoc_map_at<V>(e: Seq<(String, V)>, i: int)
    requires
        unique_keys(e),
        0 <= i < e.len(),
    ensures
        assoc_map(e).dom().contains(e[i].0@),
        assoc_map(e)[e[i].0@] == e[i].1,
{
    let k = e[i].0@;
    assert(exists|j: int| 0 <= j < e.len() && e[j].0@ == k);
    let j = choose|j: int| 0 <= j < e.len() && e[j].0@ == k;
    assert(j == i);
}

/// The domain of the denoted map has one key per entry.
pub proof fn lemma_assoc_map_len<V>(e: Seq<(String, V)>)
    requires
        unique_keys(e),
    ensures
        assoc_map(e).dom().finite(),
        assoc_map(e).dom().len() == e.len(),
    decreases e.len(),
{
    if e.len() == 0 {
        assert(assoc_map(e).dom() =~= Set::empty());
    } else {
        let f = e.drop_last();
        lemma_assoc_map_len(f);
        let k = e.last().0@;
        assert(assoc_map(e).dom() =~= assoc_map(f).dom().insert(k)) by {
            assert forall|x: Seq<char>| assoc_map(e).dom().contains(x) implies assoc_map(f).dom().insert(k).contains(x) by {
                let i = choose|i: int| 0 <= i < e.len() && e[i].0@ == x;
                if i < e.len() - 1 {
                    assert(f[i].0@ == x);
                }
            }
            assert forall|x: Seq<char>| assoc_map(f).dom().insert(k).contains(x) implies assoc_map(e).dom().contains(x) by {
                if x != k {
                    let i = choose|i: int| 0 <= i < f.len() && f[i].0@ == x;
                    assert(e[i].0@ == x);
                } else {
                    assert(e[e.len() - 1].0@ == x);
                }
            }
        }
        assert(!assoc_map(f).dom().contains(k)) by {
            if assoc_map(f).dom().contains(k) {
                let i = choose|i: int| 0 <= i < f.len() && f[i].0@ == k;
                assert(e[i].0@ == e[e.len() - 1].0@);
            }
        }
    }
}

/// Facts about an association list whose keys are unique.
proof fn lemma_unique_facts<V>(e: Seq<(String, V)>)
    requires
        unique_keys(e),
    ensures
        assoc_map(e).dom().finite(),
        assoc_map(e).dom().len() == e.len(),
        forall|i: int| #![trigger e[i]] 0 <= i < e.len() ==>
            assoc_map(e).dom().contains(e[i].0@) && assoc_map(e)[e[i].0@] == e[i].1,
        forall|k: Seq<char>| #[trigger] assoc_map(e).dom().contains(k) <==> keys_of(e).contains(k),
{
    lemma_assoc_map_len(e);
    assert forall|i: int| #![trigger e[i]] 0 <= i < e.len() implies
        assoc_map(e).dom().contains(e[i].0@) && assoc_map(e)[e[i].0@] == e[i].1 by {
        lemma_assoc_map_at(e, i);
    }
    assert forall|k: Seq<char>| #[trigger] assoc_map(e).dom().contains(k) <==> keys_of(e).contains(k) by {
        if assoc_map(e).dom().contains(k) {
            let i = choose|i: int| 0 <= i < e.len() && e[i].0@ == k;
            assert(keys_of(e)[i] == k);
        }
        if keys_of(e).contains(k) {
            let i = choose|i: int| 0 <= i < keys_of(e).len() && keys_of(e)[i] == k;
            assert(e[i].0@ == k);
        }
    }
}

/// A map from strings to values of type `V`, remembering insertion order.
pub struct StrMap<V> {
    entries: Vec<(String, V)>,
}

impl<V> StrMap<V> {
    #[verifier::type_invariant]
    spec fn wf(self) -> bool {
        unique_keys(self.entries@)
    }

    /// The entries in insertion order.
    pub closed spec fn entries(self) -> Seq<(String, V)> {
        self.entries@
    }

    /// The keys in insertion order.
    pub open spec fn key_order(self) -> Seq<Seq<char>> {
        keys_of(self.entries())
    }

    /// The map from keys to values.
    pub open spec fn view(self) -> Map<Seq<char>, V> {
        assoc_map(self.entries())
    }

    /// An empty map.
    pub fn new() -> (r: Self)
        ensures
            r.entries() == Seq::<(String, V)>::empty(),
            r.view() == Map::<Seq<char>, V>::empty(),
    {
        let r = StrMap { entries: Vec::new() };
        assert(r.view() =~= Map::<Seq<char>, V>::empty());
        r
    }

    /// The number of keys.
    pub fn len(&self) -> (r: usize)
        ensures
            r == self.entries().len(),
            unique_keys(self.entries()),
            self.view().dom().finite(),
            forall|i: int| #![trigger self.entries()[i]] 0 <= i < self.entries().len() ==>
                self.view().dom().contains(self.entries()[i].0@)
                && self.view()[self.entries()[i].0@] == self.entries()[i].1,
            forall|k: Seq<char>| #[trigger] self.view().dom().contains(k) <==> self.key_order().contains(k),
            r == self.view().dom().len(),
    {
        proof { use_type_invariant(self); lemma_unique_facts(self.entries@); }
        self.entries.len()
    }

    /// The position of `key` among the entries, if present.
    pub fn position(&self, key: &str) -> (r: Option<usize>)
        ensures
            match r {
                Some(i) => i < self.entries().len() && self.entries()[i as int].0@ == key@,
                None => !self.view().dom().contains(key@),
            },
            r is Some <==> self.view().dom().contains(key@),
    {
        proof { use_type_invariant(self); lemma_unique_facts(self.entries@); }
        let mut i: usize = 0;
        while i < self.entries.len()
            invariant
                i <= self.entries@.len(),
                forall|j: int| 0 <= j < i ==> self.entries@[j].0@ != key@,
            decreases self.entries@.len() - i,
        {
            if str_eq(self.entries[i].0.as_str(), key) {
                return Some(i);
            }
            i = i + 1;
        }
        proof {
            if self.view().dom().contains(key@) {
                let j = choose|j: int| 0 <= j < self.entries@.len() && self.entries@[j].0@ == key@;
                assert(false);
            }
        }
        None
    }

    /// Whether `key` is present.
    pub fn contains_key(&self, key: &str) -> (r: bool)
        ensures
            r == self.view().dom().contains(key@),
    {
        self.position(key).is_some()
    }

    /// The value stored under `key`, if any.
    pub fn get(&self, key: &str) -> (r: Option<&V>)
        ensures
            match r {
                Some(v) => self.view().dom().contains(key@) && *v == self.view()[key@],
                None => !self.view().dom().contains(key@),
            },
    {
        proof { use_type_invariant(self); lemma_unique_facts(self.entries@); }
        match self.position(key) {
            Some(i) => {
                let v = &self.entries[i].1;
                Some(v)
            }
            None => None,
        }
    }

    /// The entry at position `i` in insertion order.
    pub fn entry_at(&self, i: usize) -> (r: (&String, &V))
        requires
            i < self.entries().len(),
        ensures
            *r.0 == self.entries()[i as int].0,
            *r.1 == self.entries()[i as int].1,
    {
        (&self.entries[i].0, &self.entries[i].1)
    }

    /// Stores `value` under `key`, replacing any earlier value; a new key
    /// goes after all existing ones, an existing key keeps its place.
    pub fn insert(&mut self, key: String, value: V)
        ensures
            final(self).view() == old(self).view().insert(key@, value),
            old(self).view().dom().contains(key@) ==> final(self).key_order() == old(self).key_order(),
            !old(self).view().dom().contains(key@) ==> final(self).key_order() == old(self).key_order().push(key@),
            !old(self).view().dom().contains(key@) ==> final(self).entries() == old(self).entries().push((key, value)),
            old(self).view().dom().contains(key@) ==> exists|i: int| 0 <= i < old(self).entries().len()
                && old(self).entries()[i].0@ == key@
                && final(self).entries() == old(self).entries().update(i, (key, value)),
    {
        proof { use_type_invariant(&*self); lemma_unique_facts(self.entries@); }
        let ghost old_e = self.entries@;
        let pos = self.position(key.as_str());
        let mut entries: Vec<(String, V)> = Vec::new();
        std::mem::swap(&mut entries, &mut self.entries);
        match pos {
            Some(i) => {
                let ghost k = key@;
                entries.set(i, (key, value));
                proof {
                    let e = entries@;
                    assert(unique_keys(e)) by {
                        assert forall|a: int, b: int|
                            0 <= a < e.len() && 0 <= b < e.len() && a != b implies
                            #[trigger] e[a].0@ != #[trigger] e[b].0@ by {
                            assert(old_e[a].0@ != old_e[b].0@);
                        }
                    }
                    lemma_insert_existing(old_e, e, i as int, k, value);
                    assert(e =~= old_e.update(i as int, e[i as int]));
                    assert(keys_of(e) =~= keys_of(old_e));
                }
                self.entries = entries;
            }
            None => {
                let ghost k = key@;
                entries.push((key, value));
                proof {
                    let e = entries@;
                    assert(unique_keys(e)) by {
                        assert forall|a: int, b: int|
                            0 <= a < e.len() && 0 <= b < e.len() && a != b implies
                            #[trigger] e[a].0@ != #[trigger] e[b].0@ by {
                            if a < old_e.len() && b < old_e.len() {
                                assert(old_e[a].0@ != old_e[b].0@);
                            } else if a < old_e.len() {
                                assert(old_e[a].0@ == e[a].0@);
                                assert(assoc_map(old_e).dom().contains(old_e[a].0@));
                            } else {
                                assert(old_e[b].0@ == e[b].0@);
                                assert(assoc_map(old_e).dom().contains(old_e[b].0@));
                            }
                        }
                    }
                    lemma_insert_new(old_e, e, k, value);
                    assert(keys_of(e) =~= keys_of(old_e).push(k));
                }
                self.entries = entries;
            }
        }
    }

    /// Removes `key`, returning its value if it was present.
    pub fn remove(&mut self, key: &str) -> (r: Option<V>)
        ensures
            final(self).view() == old(self).view().remove(key@),
            match r {
                Some(v) => old(self).view().dom().contains(key@) && v == old(self).view()[key@],
                None => !old(self).view().dom().contains(key@),
            },
    {
        proof { use_type_invariant(&*self); lemma_unique_facts(self.entries@); }
        let ghost old_e = self.entries@;
        match self.position(key) {
            None => {
                assert(self.view() =~= old(self).view().remove(key@));
                None
            }
            Some(i) => {
                let mut entries: Vec<(String, V)> = Vec::new();
                std::mem::swap(&mut entries, &mut self.entries);
                let (_k, v) = entries.remove(i);
                proof {
                    let e = entries@;
                    assert(e =~= old_e.remove(i as int));
                    assert(unique_keys(e)) by {
                        assert forall|a: int, b: int|
                            0 <= a < e.len() && 0 <= b < e.len() && a != b implies
                            #[trigger] e[a].0@ != #[trigger] e[b].0@ by {
                            let a0 = if a < i { a } else { a + 1 };
                            let b0 = if b < i { b } else { b + 1 };
                            assert(e[a] == old_e[a0]);
                            assert(e[b] == old_e[b0]);
                        }
                    }
                    lemma_assoc_map_at(old_e, i as int);
                    let m = assoc_map(e);
                    let n = assoc_map(old_e).remove(key@);
                    assert forall|x: Seq<char>| m.dom().contains(x) <==> n.dom().contains(x) by {
                        if m.dom().contains(x) {
                            let j = choose|j: int| 0 <= j < e.len() && e[j].0@ == x;
                            let j0 = if j < i { j } else { j + 1 };
                            assert(old_e[j0].0@ == x);
                            assert(j0 != i);
                        }
                        if n.dom().contains(x) {
                            let j = choose|j: int| 0 <= j < old_e.len() && old_e[j].0@ == x;
                            assert(j != i);
                            let j1 = if j < i { j } else { j - 1 };
                            assert(e[j1].0@ == x);
                        }
                    }
                    assert forall|x: Seq<char>| m.dom().contains(x) implies m[x] == n[x] by {
                        let j = choose|j: int| 0 <= j < e.len() && e[j].0@ == x;
                        lemma_assoc_map_at(e, j);
                        let j0 = if j < i { j } else { j + 1 };
                        assert(e[j] == old_e[j0]);
                        lemma_assoc_map_at(old_e, j0);
                    }
                    assert(m =~= n);
                }
                self.entries = entries;
                Some(v)
            }
        }
    }
}

proof fn lemma_insert_existing<V>(old_e: Seq<(String, V)>, e: Seq<(String, V)>, i: int, k: Seq<char>, v: V)
    requires
        unique_keys(old_e),
        unique_keys(e),
        0 <= i < old_e.len(),
        old_e[i].0@ == k,
        e.len() == old_e.len(),
        e[i].0@ == k,
        e[i].1 == v,
        forall|j: int| 0 <= j < e.len() && j != i ==> e[j] == old_e[j],
    ensures
        assoc_map(e) == assoc_map(old_e).insert(k, v),
{
    let m = assoc_map(e);
    let n = assoc_map(old_e).insert(k, v);
    assert forall|x: Seq<char>| m.dom().contains(x) <==> n.dom().contains(x) by {
        if m.dom().contains(x) {
            let j = choose|j: int| 0 <= j < e.len() && e[j].0@ == x;
            if j != i {
                assert(old_e[j].0@ == x);
            }
        }
        if n.dom().contains(x) && x != k {
            let j = choose|j: int| 0 <= j < old_e.len() && old_e[j].0@ == x;
            assert(e[j].0@ == x);
        }
        if x == k {
            assert(e[i].0@ == x);
        }
    }
    assert forall|x: Seq<char>| m.dom().contains(x) implies m[x] == n[x] by {
        let j = choose|j: int| 0 <= j < e.len() && e[j].0@ == x;
        lemma_assoc_map_at(e, j);
        if j != i {
            lemma_assoc_map_at(old_e, j);
        }
    }
    assert(m =~= n);
}

proof fn lemma_insert_new<V>(old_e: Seq<(String, V)>, e: Seq<(String, V)>, k: Seq<char>, v: V)
    requires
        unique_keys(old_e),
        unique_keys(e),
        e == old_e.push((e.last().0, v)),
        e.last().0@ == k,
    ensures
        assoc_map(e) == assoc_map(old_e).insert(k, v),
{
    let m = assoc_map(e);
    let n = assoc_map(old_e).insert(k, v);
    let last = old_e.len() as int;
    assert forall|x: Seq<char>| m.dom().contains(x) <==> n.dom().contains(x) by {
        if m.dom().contains(x) {
            let j = choose|j: int| 0 <= j < e.len() && e[j].0@ == x;
            if j != last {
                assert(old_e[j].0@ == x);
            }
        }
        if n.dom().contains(x) && x != k {
            let j = choose|j: int| 0 <= j < old_e.len() && old_e[j].0@ == x;
            assert(e[j].0@ == x);
        }
        if x == k {
            assert(e[last].0@ == x);
        }
    }
    assert forall|x: Seq<char>| m.dom().contains(x) implies m[x] == n[x] by {
        let j = choose|j: int| 0 <= j < e.len() && e[j].0@ == x;
        lemma_assoc_map_at(e, j);
        if j != last {
            assert(e[j] == old_e[j]);
            lemma_assoc_map_at(old_e, j);
        }
    }
    assert(m =~= n);
}

} // verus!
