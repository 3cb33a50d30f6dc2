use vstd::prelude::*;

verus! {

/// A key that can be compared at run time, in agreement with its view.
pub trait TableKey: View + Sized {
    fn same_key(&self, other: &Self) -> (r: bool)
        ensures
            r == (self@ == other@),
    ;
}

impl TableKey for [u8; 32] {
    fn same_key(&self, other: &Self) -> (r: bool) {
        let mut i: usize = 0;
        while i < 32
            invariant
                0 <= i <= 32,
                forall|j: int| 0 <= j < i ==> self@[j] == other@[j],
            decreases 32 - i,
        {
            if self[i] != other[i] {
                assert(self@[i as int] != other@[i as int]);
                return false;
            }
            i += 1;
        }
        assert(self@ =~= other@);
        true
    }
}

impl TableKey for String {
    fn same_key(&self, other: &Self) -> (r: bool) {
        *self == *other
    }
}

/// A finite map kept as a list of entries whose keys are pairwise distinct.
/// Its view is the map from each key's view to the value stored with it.
///
/// The ledger's maps are keyed by 32-byte public keys and by names. vstd's
/// specifications of `HashMap` and `BTreeMap` relate a map to its view only
/// for key types that obey its key model (`obeys_key_model`,
/// `key_obeys_cmp_spec`), which vstd establishes for integer and boolean keys
/// but not for byte arrays or strings; this table is used in their place.
pub struct Table<K, V> {
    entries: Vec<(K, V)>,
}

impl<K: TableKey, V> Table<K, V> {
    /// Some entry has a key whose view is `k`.
    pub closed spec fn has(&self, k: K::V) -> bool {
        exists|i: int| 0 <= i < self.entries@.len() && self.entries@[i].0@ == k
    }

    /// The position of the entry whose key has view `k`.
    pub closed spec fn index_of(&self, k: K::V) -> int {
        choose|i: int| 0 <= i < self.entries@.len() && self.entries@[i].0@ == k
    }

    /// No two entries share a key.
    pub closed spec fn wf(&self) -> bool {
        forall|i: int, j: int|
            0 <= i < self.entries@.len() && 0 <= j < self.entries@.len() && i != j
                ==> #[trigger] self.entries@[i].0@ != #[trigger] self.entries@[j].0@
    }

    pub closed spec fn map(&self) -> Map<K::V, V> {
        Map::new(|k: K::V| self.has(k), |k: K::V| self.entries@[self.index_of(k)].1)
    }

    proof fn lemma_index_of(&self, i: int)
        requires
            self.wf(),
            0 <= i < self.entries@.len(),
        ensures
            self.has(self.entries@[i].0@),
            self.index_of(self.entries@[i].0@) == i,
            self.map().contains_key(self.entries@[i].0@),
            self.map()[self.entries@[i].0@] == self.entries@[i].1,
    {
        let k = self.entries@[i].0@;
        assert(self.has(k));
        let j = self.index_of(k);
        assert(self.entries@[j].0@ == k);
    }

    /// Only finitely many keys are mapped.
    pub proof fn lemma_map_finite(&self)
        ensures
            self.map().dom().finite(),
    {
        let keys = self.entries@.map_values(|e: (K, V)| e.0@);
        assert forall|k: K::V| self.map().dom().contains(k) implies keys.to_set().contains(k) by {
            let i = choose|i: int| 0 <= i < self.entries@.len() && self.entries@[i].0@ == k;
            assert(keys[i] == k);
        }
        vstd::seq_lib::seq_to_set_is_finite(keys);
        vstd::set_lib::lemma_len_subset(self.map().dom(), keys.to_set());
    }

    pub fn new() -> (t: Self)
        ensures
            t.wf(),
            t.map() == Map::<K::V, V>::empty(),
    {
        let t = Table { entries: Vec::new() };
        assert(t.map() =~= Map::<K::V, V>::empty());
        t
    }

    fn find(&self, k: &K) -> (r: Option<usize>)
        requires
            self.wf(),
        ensures
            match r {
                Some(i) => i < self.entries@.len() && self.entries@[i as int].0@ == k@,
                None => !self.has(k@),
            },
    {
        let mut i: usize = 0;
        while i < self.entries.len()
            invariant
                0 <= i <= self.entries@.len(),
                forall|j: int| 0 <= j < i ==> self.entries@[j].0@ != k@,
            decreases self.entries@.len() - i,
        {
            if self.entries[i].0.same_key(k) {
                return Some(i);
            }
            i += 1;
        }
        None
    }

    /// The value stored under `k`, if any.
    pub fn get(&self, k: &K) -> (r: Option<&V>)
        requires
            self.wf(),
        ensures
            match r {
                Some(v) => self.map().contains_key(k@) && *v == self.map()[k@],
                None => !self.map().contains_key(k@),
            },
    {
        match self.find(k) {
            Some(i) => {
                proof {
                    self.lemma_index_of(i as int);
                }
                Some(&self.entries[i].1)
            },
            None => None,
        }
    }

    /// Stores `v` under `k`, replacing what was stored there.
    pub fn insert(&mut self, k: K, v: V)
        requires
            old(self).wf(),
        ensures
            final(self).wf(),
            final(self).map() == old(self).map().insert(k@, v),
    {
        let ghost kv = k@;
        match self.find(&k) {
            Some(i) => {
                let ghost old_entries = self.entries@;
                self.entries.set(i, (k, v));
                proof {
                    assert forall|a: int, b: int|
                        0 <= a < self.entries@.len() && 0 <= b < self.entries@.len() && a != b
                            implies #[trigger] self.entries@[a].0@ != #[trigger] self.entries@[b].0@ by {
                        assert(old_entries[a].0@ == self.entries@[a].0@);
                        assert(old_entries[b].0@ == self.entries@[b].0@);
                    }
                    self.lemma_index_of(i as int);
                    assert forall|q: K::V| #[trigger] self.has(q) == old(self).has(q) by {
                        if self.has(q) {
                            let j = choose|j: int| 0 <= j < self.entries@.len() && self.entries@[j].0@ == q;
                            assert(old_entries[j].0@ == q);
                        }
                        if old(self).has(q) {
                            let j = choose|j: int| 0 <= j < old_entries.len() && old_entries[j].0@ == q;
                            assert(self.entries@[j].0@ == q);
                        }
                    }
                    assert forall|q: K::V| self.has(q) && q != kv
                        implies #[trigger] self.map()[q] == old(self).map()[q] by {
                        let j = self.index_of(q);
                        assert(j != i);
                        assert(old_entries[j] == self.entries@[j]);
                        old(self).lemma_index_of(j);
                    }
                    assert(self.map() =~= old(self).map().insert(kv, v));
                }
            },
            None => {
                let ghost old_entries = self.entries@;
                self.entries.push((k, v));
                proof {
                    let n = old_entries.len() as int;
                    assert forall|a: int, b: int|
                        0 <= a < self.entries@.len() && 0 <= b < self.entries@.len() && a != b
                            implies #[trigger] self.entries@[a].0@ != #[trigger] self.entries@[b].0@ by {
                        if a < n && b < n {
                            assert(old_entries[a] == self.entries@[a]);
                            assert(old_entries[b] == self.entries@[b]);
                        } else if a < n {
                            assert(old_entries[a] == self.entries@[a]);
                        } else {
                            assert(old_entries[b] == self.entries@[b]);
                        }
                    }
                    self.lemma_index_of(n);
                    assert forall|q: K::V| q != kv implies #[trigger] self.has(q) == old(self).has(q) by {
                        if self.has(q) {
                            let j = choose|j: int| 0 <= j < self.entries@.len() && self.entries@[j].0@ == q;
                            assert(j != n);
                            assert(old_entries[j].0@ == q);
                        }
                        if old(self).has(q) {
                            let j = choose|j: int| 0 <= j < old_entries.len() && old_entries[j].0@ == q;
                            assert(self.entries@[j].0@ == q);
                        }
                    }
                    assert forall|q: K::V| self.has(q) && q != kv
                        implies #[trigger] self.map()[q] == old(self).map()[q] by {
                        let j = self.index_of(q);
                        assert(j != n);
                        assert(old_entries[j] == self.entries@[j]);
                        old(self).lemma_index_of(j);
                    }
                    assert(self.map() =~= old(self).map().insert(kv, v));
                }
            },
        }
    }
}

} // verus!
