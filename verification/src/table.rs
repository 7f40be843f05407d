//! A small map from keys to values, kept in insertion order.

use vstd::prelude::*;

verus! {

/// Keys that can be told apart at run time.
pub trait Key: Sized {
    /// Whether two keys are the same value.
    fn same(&self, other: &Self) -> (r: bool)
        ensures
            r == (*self == *other),
    ;
}

impl<const N: usize> Key for [u8; N] {
    fn same(&self, other: &Self) -> (r: bool) {
        let mut i: usize = 0;
        while i < N
            invariant
                i <= N,
                forall|j: int| 0 <= j < i ==> self@[j] == other@[j],
            decreases N - i,
        {
            if self[i] != other[i] {
                assert(self@[i as int] != other@[i as int]);
                return false;
            }
            i += 1;
        }
        assert(*self =~= *other);
        true
    }
}

/// The entries of a table hold no key twice.
pub open spec fn distinct_keys<K, V>(entries: Seq<(K, V)>) -> bool {
    forall|i: int, j: int|
        0 <= i < entries.len() && 0 <= j < entries.len() && i != j ==> (#[trigger] entries[i]).0 != (
        #[trigger] entries[j]).0
}

/// Position `i` of the entries holds the key `k`.
pub open spec fn key_at<K, V>(entries: Seq<(K, V)>, k: K, i: int) -> bool {
    0 <= i < entries.len() && entries[i].0 == k
}

/// The map that a list of entries stands for.
pub open spec fn entries_map<K, V>(entries: Seq<(K, V)>) -> Map<K, V> {
    Map::new(
        |k: K| exists|i: int| key_at(entries, k, i),
        |k: K| entries[choose|i: int| key_at(entries, k, i)].1,
    )
}

/// Each entry of a list without repeated keys is in the map that the list
/// stands for, and the map holds nothing else.
pub proof fn lemma_entries_map<K, V>(entries: Seq<(K, V)>)
    requires
        distinct_keys(entries),
    ensures
        forall|i: int|
            0 <= i < entries.len() ==> entries_map(entries).contains_key((#[trigger] entries[i]).0)
                && entries_map(entries)[entries[i].0] == entries[i].1,
        forall|k: K| #[trigger]
            entries_map(entries).contains_key(k) ==> exists|i: int| key_at(entries, k, i),
        entries_map(entries).dom().finite(),
        entries_map(entries).len() == entries.len(),
{
    let m = entries_map(entries);
    assert forall|i: int| 0 <= i < entries.len() implies m.contains_key(
        (#[trigger] entries[i]).0,
    ) && m[entries[i].0] == entries[i].1 by {
        let k = entries[i].0;
        assert(key_at(entries, k, i));
        let c = choose|j: int| key_at(entries, k, j);
        assert(key_at(entries, k, c));
        assert(c == i);
    }
    let keys = entries.map_values(|e: (K, V)| e.0);
    assert(keys.no_duplicates());
    keys.unique_seq_to_set();
    assert(keys.to_set() =~= m.dom()) by {
        assert forall|k: K| m.contains_key(k) implies keys.contains(k) by {
            let c = choose|j: int| key_at(entries, k, j);
            assert(keys[c] == k);
        }
        assert forall|k: K| keys.contains(k) implies m.contains_key(k) by {
            let c = choose|j: int| 0 <= j < keys.len() && keys[j] == k;
            assert(key_at(entries, k, c));
        }
    }
    vstd::seq_lib::seq_to_set_is_finite(keys);
}

/// Entries after a key was mapped to a value: in its place where it is there, else
/// behind the others.
pub open spec fn inserted<K, V>(entries: Seq<(K, V)>, k: K, v: V) -> Seq<(K, V)> {
    if exists|i: int| key_at(entries, k, i) {
        entries.update(choose|i: int| key_at(entries, k, i), (k, v))
    } else {
        entries.push((k, v))
    }
}

/// A map from `K` to `V`. No key occurs twice, and entries stay in the order in
/// which their keys first came.
pub struct Table<K, V> {
    entries: Vec<(K, V)>,
}

impl<K, V> View for Table<K, V> {
    type V = Map<K, V>;

    closed spec fn view(&self) -> Map<K, V> {
        entries_map(self.entries@)
    }
}

impl<K: Key, V> Table<K, V> {
    /// The entries, in order.
    pub closed spec fn entries(&self) -> Seq<(K, V)> {
        self.entries@
    }

    /// No key occurs twice.
    pub closed spec fn wf(&self) -> bool {
        distinct_keys(self.entries@)
    }

    /// What a well-formed table's view and its entries have to do with each
    /// other.
    pub proof fn lemma_view(&self)
        requires
            self.wf(),
        ensures
            self@ == entries_map(self.entries()),
            distinct_keys(self.entries()),
            self@.dom().finite(),
            self@.len() == self.entries().len(),
    {
        lemma_entries_map(self.entries@);
    }

    /// An empty table.
    pub fn new() -> (r: Self)
        ensures
            r.wf(),
            r@ == Map::<K, V>::empty(),
            r.entries() == Seq::<(K, V)>::empty(),
    {
        let r = Table { entries: Vec::new() };
        proof {
            lemma_entries_map(r.entries@);
            assert(r@ =~= Map::<K, V>::empty());
        }
        r
    }

    /// The number of entries.
    pub fn len(&self) -> (r: usize)
        requires
            self.wf(),
        ensures
            r == self@.len(),
            r == self.entries().len(),
    {
        proof {
            lemma_entries_map(self.entries@);
        }
        self.entries.len()
    }

    /// The entry at a position.
    pub fn entry(&self, i: usize) -> (r: (&K, &V))
        requires
            i < self.entries().len(),
        ensures
            *r.0 == self.entries()[i as int].0,
            *r.1 == self.entries()[i as int].1,
    {
        let e = &self.entries[i];
        (&e.0, &e.1)
    }

    fn position(&self, k: &K) -> (r: Option<usize>)
        requires
            self.wf(),
        ensures
            match r {
                Some(i) => key_at(self.entries@, *k, i as int) && self@.contains_key(*k)
                    && self@[*k] == self.entries@[i as int].1,
                None => !self@.contains_key(*k) && forall|i: int| !key_at(self.entries@, *k, i),
            },
    {
        proof {
            lemma_entries_map(self.entries@);
        }
        let n: usize = self.entries.len();
        let mut i: usize = 0;
        while i < n
            invariant
                i <= n,
                n == self.entries@.len(),
                forall|j: int| 0 <= j < i ==> (#[trigger] self.entries@[j]).0 != *k,
                forall|j: int|
                    0 <= j < self.entries@.len() ==> self@.contains_key(
                        (#[trigger] self.entries@[j]).0,
                    ) && self@[self.entries@[j].0] == self.entries@[j].1,
            decreases n - i,
        {
            if self.entries[i].0.same(k) {
                return Some(i);
            }
            i += 1;
        }
        None
    }

    /// Whether the table holds a key.
    pub fn contains_key(&self, k: &K) -> (r: bool)
        requires
            self.wf(),
        ensures
            r == self@.contains_key(*k),
    {
        self.position(k).is_some()
    }

    /// The value that a key maps to.
    pub fn get(&self, k: &K) -> (r: Option<&V>)
        requires
            self.wf(),
        ensures
            match r {
                Some(v) => self@.contains_key(*k) && *v == self@[*k],
                None => !self@.contains_key(*k),
            },
    {
        match self.position(k) {
            Some(i) => Some(&self.entries[i].1),
            None => None,
        }
    }

    /// Maps a key to a value, in place of what it mapped to before. A key that is
    /// there keeps its place, and a new one comes last.
    pub fn insert(&mut self, k: K, v: V)
        requires
            old(self).wf(),
        ensures
            final(self).wf(),
            final(self)@ == old(self)@.insert(k, v),
            final(self).entries() == inserted(old(self).entries(), k, v),
    {
        let ghost before = self.entries@;
        let ghost before_map = self@;
        proof {
            lemma_entries_map(before);
        }
        match self.position(&k) {
            Some(i) => {
                self.entries[i] = (k, v);
                proof {
                    assert(self.entries@ == before.update(i as int, (k, v)));
                    lemma_entries_map(self.entries@);
                    assert forall|q: K| self@.contains_key(q) <==> before_map.insert(
                        k,
                        v,
                    ).contains_key(q) by {
                        if before_map.contains_key(q) {
                            let c = choose|j: int| key_at(before, q, j);
                            assert(self.entries@[c].0 == q);
                        }
                        if self@.contains_key(q) {
                            let c = choose|j: int| key_at(self.entries@, q, j);
                            assert(before[c].0 == q);
                        }
                        assert(self.entries@[i as int].0 == k);
                    }
                    assert forall|q: K| self@.contains_key(q) implies self@[q] == before_map.insert(
                        k,
                        v,
                    )[q] by {
                        let c = choose|j: int| key_at(self.entries@, q, j);
                        assert(self.entries@[c].0 == q);
                        assert(before[c].0 == q);
                    }
                    assert(self@ =~= before_map.insert(k, v));
                }
            },
            None => {
                proof {
                    assert forall|j: int| 0 <= j < before.len() implies (#[trigger] before[j]).0
                        != k by {
                        assert(!key_at(before, k, j));
                    }
                }
                self.entries.push((k, v));
                proof {
                    let after = self.entries@;
                    lemma_entries_map(after);
                    assert(after[before.len() as int] == (k, v));
                    assert forall|q: K| self@.contains_key(q) <==> before_map.insert(
                        k,
                        v,
                    ).contains_key(q) by {
                        if before_map.contains_key(q) {
                            let c = choose|j: int| key_at(before, q, j);
                            assert(after[c].0 == q);
                        }
                        if self@.contains_key(q) {
                            let c = choose|j: int| key_at(after, q, j);
                            if c < before.len() {
                                assert(before[c].0 == q);
                            }
                        }
                    }
                    assert forall|q: K| self@.contains_key(q) implies self@[q] == before_map.insert(
                        k,
                        v,
                    )[q] by {
                        let c = choose|j: int| key_at(after, q, j);
                        assert(after[c].0 == q);
                        if c < before.len() {
                            assert(before[c].0 == q);
                        }
                    }
                    assert(self@ =~= before_map.insert(k, v));
                }
            },
        }
    }
}

} // verus!
