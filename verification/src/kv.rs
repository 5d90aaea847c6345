//! The preimage store of the host: a write-once map from keys to bytes.

use crate::key::PreimageKey;
use vstd::prelude::*;
use vstd::slice::slice_to_vec;

verus! {

/// An in-memory preimage store. An entry, once written, is never changed or
/// removed.
pub struct MemoryKeyValueStore {
    entries: Vec<(PreimageKey, Vec<u8>)>,
}

impl View for MemoryKeyValueStore {
    type V = Map<PreimageKey, Seq<u8>>;

    closed spec fn view(&self) -> Map<PreimageKey, Seq<u8>> {
        Map::new(
            |k: PreimageKey| exists|i: int| self.holds_at(i, k),
            |k: PreimageKey| self.entries@[choose|i: int| self.holds_at(i, k)].1@,
        )
    }
}

impl MemoryKeyValueStore {
    spec fn holds_at(&self, i: int, key: PreimageKey) -> bool {
        0 <= i < self.entries@.len() && self.entries@[i].0 == key
    }

    #[verifier::type_invariant]
    spec fn distinct_keys(&self) -> bool {
        forall|i: int, j: int|
            0 <= i < j < self.entries@.len() ==> self.entries@[i].0 != self.entries@[j].0
    }

    /// Position of a key among the entries.
    fn position(&self, key: &PreimageKey) -> (r: Option<usize>)
        ensures
            r matches Some(i) ==> self.holds_at(i as int, *key),
            r is None ==> !exists|i: int| self.holds_at(i, *key),
    {
        let mut i: usize = 0;
        while i < self.entries.len()
            invariant
                i <= self.entries@.len(),
                forall|j: int| 0 <= j < i ==> self.entries@[j].0 != *key,
            decreases self.entries@.len() - i,
        {
            if self.entries[i].0 == *key {
                return Some(i);
            }
            i = i + 1;
        }
        None
    }

    /// An empty store.
    pub fn new() -> (r: Self)
        ensures
            r@ == Map::<PreimageKey, Seq<u8>>::empty(),
    {
        let r = MemoryKeyValueStore { entries: Vec::new() };
        assert(r@ =~= Map::<PreimageKey, Seq<u8>>::empty());
        r
    }

    /// The number of entries.
    pub fn len(&self) -> (r: usize)
        ensures
            r == self@.dom().len(),
            self@.dom().finite(),
    {
        proof {
            use_type_invariant(self);
            self.lemma_domain_size();
        }
        self.entries.len()
    }

    proof fn lemma_domain_size(&self)
        requires
            self.distinct_keys(),
        ensures
            self@.dom().finite(),
            self@.dom().len() == self.entries@.len(),
    {
        let keys = self.entries@.map_values(|e: (PreimageKey, Vec<u8>)| e.0);
        assert(keys.no_duplicates());
        assert(keys.to_set() =~= self@.dom()) by {
            assert forall|k: PreimageKey| keys.to_set().contains(k) implies self@.dom().contains(
                k,
            ) by {
                let i = choose|i: int| 0 <= i < keys.len() && keys[i] == k;
                assert(self.holds_at(i, k));
            }
            assert forall|k: PreimageKey| self@.dom().contains(k) implies keys.to_set().contains(
                k,
            ) by {
                let i = choose|i: int| self.holds_at(i, k);
                assert(keys[i] == k);
            }
        }
        keys.unique_seq_to_set();
    }

    /// The bytes stored under a key, if any.
    pub fn get(&self, key: &PreimageKey) -> (r: Option<Vec<u8>>)
        ensures
            match r {
                Some(bytes) => self@.contains_key(*key) && bytes@ == self@[*key],
                None => !self@.contains_key(*key),
            },
    {
        proof {
            use_type_invariant(self);
        }
        match self.position(key) {
            Some(i) => {
                proof {
                    let c = choose|c: int| self.holds_at(c, *key);
                    assert(c == i);
                }
                Some(slice_to_vec(self.entries[i].1.as_slice()))
            },
            None => None,
        }
    }

    /// Stores bytes under a key that has no entry yet, and says whether it
    /// did. An existing entry stays as it is.
    pub fn set(&mut self, key: PreimageKey, value: Vec<u8>) -> (inserted: bool)
        ensures
            inserted == !old(self)@.contains_key(key),
            final(self)@ == spec_set(old(self)@, key, value@),
    {
        proof {
            use_type_invariant(&*self);
        }
        match self.position(&key) {
            Some(_) => false,
            None => {
                let ghost before = *self;
                let mut entries: Vec<(PreimageKey, Vec<u8>)> = Vec::new();
                core::mem::swap(&mut self.entries, &mut entries);
                entries.push((key, value));
                proof {
                    assert forall|i: int, j: int| 0 <= i < j < entries@.len() implies entries@[i].0
                        != entries@[j].0 by {
                        if j == before.entries@.len() {
                            assert(!before.holds_at(i, key));
                        }
                    }
                }
                self.entries = entries;
                proof {
                    let after = *self;
                    assert forall|k: PreimageKey| after@.contains_key(k) <==> (k == key
                        || before@.contains_key(k)) by {
                        if after@.contains_key(k) {
                            let i = choose|i: int| after.holds_at(i, k);
                            if i < before.entries@.len() {
                                assert(before.holds_at(i, k));
                            }
                        }
                        if k == key {
                            assert(after.holds_at(before.entries@.len() as int, k));
                        }
                        if before@.contains_key(k) {
                            let i = choose|i: int| before.holds_at(i, k);
                            assert(after.holds_at(i, k));
                        }
                    }
                    assert forall|k: PreimageKey| after@.contains_key(k) implies after@[k]
                        == before@.insert(key, value@)[k] by {
                        let i = choose|i: int| after.holds_at(i, k);
                        if k == key {
                            assert(i == before.entries@.len());
                        } else {
                            let j = choose|j: int| before.holds_at(j, k);
                            assert(after.holds_at(j, k));
                            assert(i == j);
                        }
                    }
                    assert(after@ =~= before@.insert(key, value@));
                }
                true
            },
        }
    }
}

/// The store after an attempt to write `value` under `key`: a key that has
/// an entry keeps it.
pub open spec fn spec_set(
    store: Map<PreimageKey, Seq<u8>>,
    key: PreimageKey,
    value: Seq<u8>,
) -> Map<PreimageKey, Seq<u8>> {
    if store.contains_key(key) {
        store
    } else {
        store.insert(key, value)
    }
}

/// A write never changes or removes what the store already holds.
pub proof fn lemma_store_grows(
    store: Map<PreimageKey, Seq<u8>>,
    key: PreimageKey,
    value: Seq<u8>,
    other: PreimageKey,
)
    requires
        store.contains_key(other),
    ensures
        spec_set(store, key, value).contains_key(other),
        spec_set(store, key, value)[other] == store[other],
{
}

/// Writing the same bytes under the same key again changes nothing: a
/// fetch that is repeated leaves the store as the first one left it.
pub proof fn lemma_set_idempotent(
    store: Map<PreimageKey, Seq<u8>>,
    key: PreimageKey,
    value: Seq<u8>,
)
    ensures
        spec_set(spec_set(store, key, value), key, value) == spec_set(store, key, value),
{
}

} // verus!
