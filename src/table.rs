//! A table of records with unique text keys, held in a vector and seen as a
//! map from key to record.
use vstd::prelude::*;

verus! {

/// A record stored under a text key of its own.
pub trait Record: View + Sized {
    spec fn key_of(v: Self::V) -> Seq<char>;

    /// The record's key.
    fn key(&self) -> (r: &String)
        ensures
            r@ == Self::key_of(self@),
    ;

    /// A copy of the record.
    fn duplicate(&self) -> (r: Self)
        ensures
            r@ == self@,
    ;
}

/// Whether some element of `s` has key `k`.
pub open spec fn has_key<V>(s: Seq<V>, key: spec_fn(V) -> Seq<char>, k: Seq<char>) -> bool {
    exists|i: int| 0 <= i < s.len() && key(s[i]) == k
}

/// No two elements of `s` share a key.
pub open spec fn distinct_keys<V>(s: Seq<V>, key: spec_fn(V) -> Seq<char>) -> bool {
    forall|i: int, j: int|
        0 <= i < s.len() && 0 <= j < s.len() && i != j ==> key(#[trigger] s[i]) != key(
            #[trigger] s[j],
        )
}

/// The map from each key that occurs in `s` to the element that carries it.
pub open spec fn keyed_map<V>(s: Seq<V>, key: spec_fn(V) -> Seq<char>) -> Map<Seq<char>, V> {
    Map::new(
        |k: Seq<char>| has_key(s, key, k),
        |k: Seq<char>| s[choose|i: int| 0 <= i < s.len() && key(s[i]) == k],
    )
}

/// In a sequence with distinct keys, each element is what the map holds under
/// its key.
pub proof fn lemma_keyed_map_value<V>(s: Seq<V>, key: spec_fn(V) -> Seq<char>, i: int)
    requires
        distinct_keys(s, key),
        0 <= i < s.len(),
    ensures
        keyed_map(s, key).contains_key(key(s[i])),
        keyed_map(s, key)[key(s[i])] == s[i],
{
    let k = key(s[i]);
    assert(has_key(s, key, k));
    let j = choose|j: int| 0 <= j < s.len() && key(s[j]) == k;
    assert(j == i);
}

/// Appending an element under a new key inserts it into the map.
pub proof fn lemma_keyed_map_push<V>(s: Seq<V>, key: spec_fn(V) -> Seq<char>, v: V)
    requires
        distinct_keys(s, key),
        !has_key(s, key, key(v)),
    ensures
        distinct_keys(s.push(v), key),
        keyed_map(s.push(v), key) == keyed_map(s, key).insert(key(v), v),
{
    let t = s.push(v);
    assert forall|i: int, j: int|
        0 <= i < t.len() && 0 <= j < t.len() && i != j implies key(#[trigger] t[i]) != key(
            #[trigger] t[j],
        ) by {
        if i < s.len() && j < s.len() {
            assert(t[i] == s[i] && t[j] == s[j]);
        } else if i < s.len() {
            assert(t[i] == s[i]);
        } else {
            assert(t[j] == s[j]);
        }
    }
    let m = keyed_map(s, key).insert(key(v), v);
    assert forall|k: Seq<char>| has_key(t, key, k) <==> m.contains_key(k) by {
        if has_key(t, key, k) {
            let i = choose|i: int| 0 <= i < t.len() && key(t[i]) == k;
            if i < s.len() {
                assert(t[i] == s[i]);
                assert(has_key(s, key, k));
            }
        }
        if has_key(s, key, k) {
            let i = choose|i: int| 0 <= i < s.len() && key(s[i]) == k;
            assert(t[i] == s[i]);
        }
        if k == key(v) {
            assert(t[s.len() as int] == v);
        }
    }
    assert forall|k: Seq<char>| #[trigger] m.contains_key(k) implies keyed_map(t, key)[k] == m[k] by {
        assert(has_key(t, key, k));
        let i = choose|i: int| 0 <= i < t.len() && key(t[i]) == k;
        if i < s.len() {
            assert(t[i] == s[i]);
            lemma_keyed_map_value(s, key, i);
        } else {
            assert(t[i] == v);
        }
    }
    assert(keyed_map(t, key) =~= m);
}

/// Replacing an element by one with the same key updates the map under it.
pub proof fn lemma_keyed_map_update<V>(s: Seq<V>, key: spec_fn(V) -> Seq<char>, i: int, v: V)
    requires
        distinct_keys(s, key),
        0 <= i < s.len(),
        key(v) == key(s[i]),
    ensures
        distinct_keys(s.update(i, v), key),
        keyed_map(s.update(i, v), key) == keyed_map(s, key).insert(key(v), v),
{
    let t = s.update(i, v);
    assert forall|a: int, b: int|
        0 <= a < t.len() && 0 <= b < t.len() && a != b implies key(#[trigger] t[a]) != key(
            #[trigger] t[b],
        ) by {
        assert(key(t[a]) == key(s[a]));
        assert(key(t[b]) == key(s[b]));
    }
    let m = keyed_map(s, key).insert(key(v), v);
    lemma_keyed_map_value(s, key, i);
    assert forall|k: Seq<char>| has_key(t, key, k) <==> m.contains_key(k) by {
        if has_key(t, key, k) {
            let a = choose|a: int| 0 <= a < t.len() && key(t[a]) == k;
            assert(key(t[a]) == key(s[a]));
        }
        if has_key(s, key, k) {
            let a = choose|a: int| 0 <= a < s.len() && key(s[a]) == k;
            assert(key(t[a]) == key(s[a]));
        }
    }
    assert forall|k: Seq<char>| #[trigger] m.contains_key(k) implies keyed_map(t, key)[k] == m[k] by {
        let a = choose|a: int| 0 <= a < t.len() && key(t[a]) == k;
        assert(key(t[a]) == key(s[a]));
        if a != i {
            assert(t[a] == s[a]);
            lemma_keyed_map_value(s, key, a);
        }
    }
    assert(keyed_map(t, key) =~= m);
}

/// Removing an element removes its key from the map.
pub proof fn lemma_keyed_map_remove<V>(s: Seq<V>, key: spec_fn(V) -> Seq<char>, i: int)
    requires
        distinct_keys(s, key),
        0 <= i < s.len(),
    ensures
        distinct_keys(s.remove(i), key),
        keyed_map(s.remove(i), key) == keyed_map(s, key).remove(key(s[i])),
{
    let t = s.remove(i);
    assert forall|a: int| 0 <= a < t.len() implies #[trigger] t[a] == s[if a < i { a } else { a + 1 }] by {}
    assert forall|a: int, b: int|
        0 <= a < t.len() && 0 <= b < t.len() && a != b implies key(#[trigger] t[a]) != key(
            #[trigger] t[b],
        ) by {
        assert(t[a] == s[if a < i { a } else { a + 1 }]);
        assert(t[b] == s[if b < i { b } else { b + 1 }]);
    }
    let m = keyed_map(s, key).remove(key(s[i]));
    assert forall|k: Seq<char>| has_key(t, key, k) <==> m.contains_key(k) by {
        if has_key(t, key, k) {
            let a = choose|a: int| 0 <= a < t.len() && key(t[a]) == k;
            let b = if a < i { a } else { a + 1 };
            assert(t[a] == s[b]);
            assert(has_key(s, key, k));
        }
        if m.contains_key(k) {
            let b = choose|b: int| 0 <= b < s.len() && key(s[b]) == k;
            assert(b != i);
            let a = if b < i { b } else { b - 1 };
            assert(t[a] == s[b]);
        }
    }
    assert forall|k: Seq<char>| #[trigger] m.contains_key(k) implies keyed_map(t, key)[k] == m[k] by {
        let a = choose|a: int| 0 <= a < t.len() && key(t[a]) == k;
        let b = if a < i { a } else { a + 1 };
        assert(t[a] == s[b]);
        lemma_keyed_map_value(s, key, b);
    }
    assert(keyed_map(t, key) =~= m);
}

/// A sequence with distinct keys has as many elements as its map has keys.
pub proof fn lemma_keyed_map_len<V>(s: Seq<V>, key: spec_fn(V) -> Seq<char>)
    requires
        distinct_keys(s, key),
    ensures
        keyed_map(s, key).dom().finite(),
        keyed_map(s, key).len() == s.len(),
    decreases s.len(),
{
    if s.len() == 0 {
        assert(keyed_map(s, key).dom() =~= Set::<Seq<char>>::empty());
    } else {
        let i = s.len() - 1;
        let t = s.remove(i);
        lemma_keyed_map_remove(s, key, i);
        lemma_keyed_map_len(t, key);
        lemma_keyed_map_value(s, key, i);
        assert(keyed_map(s, key).dom() =~= keyed_map(t, key).dom().insert(key(s[i])));
    }
}

/// Records held in a vector, keys distinct.
pub struct Table<R> {
    pub entries: Vec<R>,
}

impl<R: Record> Table<R> {
    /// The records' models, in storage order.
    pub open spec fn records(&self) -> Seq<R::V> {
        self.entries@.map_values(|r: R| r@)
    }

    /// No two records share a key.
    pub open spec fn wf(&self) -> bool {
        distinct_keys(self.records(), |v: R::V| R::key_of(v))
    }

    /// The table as a map from key to record model.
    pub open spec fn map(&self) -> Map<Seq<char>, R::V> {
        keyed_map(self.records(), |v: R::V| R::key_of(v))
    }

    /// An empty table.
    pub fn new() -> (r: Self)
        ensures
            r.wf(),
            r.map() == Map::<Seq<char>, R::V>::empty(),
    {
        let r = Table { entries: Vec::new() };
        assert(r.map() =~= Map::<Seq<char>, R::V>::empty());
        r
    }

    /// Number of records.
    pub fn len(&self) -> (r: usize)
        requires
            self.wf(),
        ensures
            r == self.map().len(),
    {
        proof {
            lemma_keyed_map_len(self.records(), |v: R::V| R::key_of(v));
        }
        self.entries.len()
    }

    /// Position of the record under `key`, if there is one.
    pub fn find(&self, key: &String) -> (r: Option<usize>)
        requires
            self.wf(),
        ensures
            match r {
                Some(i) => i < self.entries@.len() && R::key_of(self.entries@[i as int]@) == key@,
                None => !self.map().contains_key(key@),
            },
    {
        let mut i: usize = 0;
        while i < self.entries.len()
            invariant
                i <= self.entries@.len(),
                forall|j: int| 0 <= j < i ==> R::key_of(#[trigger] self.entries@[j]@) != key@,
            decreases self.entries@.len() - i,
        {
            if self.entries[i].key().eq(key) {
                return Some(i);
            }
            i = i + 1;
        }
        proof {
            if self.map().contains_key(key@) {
                let j = choose|j: int| 0 <= j < self.records().len() && R::key_of(self.records()[j]) == key@;
                assert(self.records()[j] == self.entries@[j]@);
            }
        }
        None
    }

    /// The record under `key`, if there is one.
    pub fn get(&self, key: &String) -> (r: Option<&R>)
        requires
            self.wf(),
        ensures
            r is Some <==> self.map().contains_key(key@),
            r matches Some(x) ==> x@ == self.map()[key@],
    {
        match self.find(key) {
            Some(i) => {
                proof {
                    assert(self.records()[i as int] == self.entries@[i as int]@);
                    lemma_keyed_map_value(self.records(), |v: R::V| R::key_of(v), i as int);
                }
                Some(&self.entries[i])
            },
            None => None,
        }
    }

    /// Stores `rec` under its key, replacing any record already there.
    pub fn insert(&mut self, rec: R)
        requires
            old(self).wf(),
        ensures
            final(self).wf(),
            final(self).map() == old(self).map().insert(R::key_of(rec@), rec@),
    {
        let ghost key = |v: R::V| R::key_of(v);
        let k = rec.key().clone();
        match self.find(&k) {
            Some(i) => {
                let ghost before = self.records();
                self.entries.set(i, rec);
                proof {
                    assert(self.records() =~= before.update(i as int, rec@));
                    assert(before[i as int] == old(self).entries@[i as int]@);
                    lemma_keyed_map_update(before, key, i as int, rec@);
                }
            },
            None => {
                let ghost before = self.records();
                self.entries.push(rec);
                proof {
                    assert(self.records() =~= before.push(rec@));
                    assert(!has_key(before, key, key(rec@)));
                    lemma_keyed_map_push(before, key, rec@);
                }
            },
        }
    }

    /// Removes the record under `key`; whether there was one.
    pub fn remove(&mut self, key: &String) -> (r: bool)
        requires
            old(self).wf(),
        ensures
            final(self).wf(),
            r == old(self).map().contains_key(key@),
            final(self).map() == old(self).map().remove(key@),
    {
        match self.find(key) {
            Some(i) => {
                let ghost before = self.records();
                self.entries.remove(i);
                proof {
                    assert(self.records() =~= before.remove(i as int));
                    assert(before[i as int] == old(self).entries@[i as int]@);
                    lemma_keyed_map_remove(before, |v: R::V| R::key_of(v), i as int);
                    lemma_keyed_map_value(before, |v: R::V| R::key_of(v), i as int);
                }
                true
            },
            None => {
                assert(old(self).map().remove(key@) =~= old(self).map());
                false
            },
        }
    }
}

} // verus!
