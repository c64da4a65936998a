use vstd::prelude::*;
use crate::object::{
    hash_key_of, hash_pairs_model, lemma_hash_pairs_model, HashKey, HashObject, HashPair, Object,
};
use crate::semantics::{hash_find, hash_get, hash_insert};

verus! {

impl HashObject {
    /// The number of pairs.
    pub fn len(&self) -> (r: usize)
        ensures
            r == hash_pairs_model(self.pairs@).len(),
    {
        proof {
            lemma_hash_pairs_model(self.pairs@);
        }
        self.pairs.len()
    }

    /// The position of the pair stored under `key`.
    pub fn find(&self, key: &HashKey) -> (r: Option<usize>)
        ensures
            match r {
                Some(i) => hash_find(hash_pairs_model(self.pairs@), *key, 0) == i
                    && i < self.pairs.len(),
                None => hash_find(hash_pairs_model(self.pairs@), *key, 0) < 0,
            },
    {
        let ghost model = hash_pairs_model(self.pairs@);
        proof {
            lemma_hash_pairs_model(self.pairs@);
        }
        let mut i: usize = 0;
        while i < self.pairs.len()
            invariant
                i <= self.pairs.len(),
                model == hash_pairs_model(self.pairs@),
                model.len() == self.pairs.len(),
                forall|j: int| 0 <= j < model.len() ==> #[trigger] model[j] == self.pairs@[j]@,
                hash_find(model, *key, 0) == hash_find(model, *key, i as int),
            decreases self.pairs.len() - i,
        {
            let candidate = self.pairs[i].key.hash_key();
            assert(candidate == hash_key_of(model[i as int].0));
            match candidate {
                Some(k) => {
                    if k.kind == key.kind && k.value == key.value {
                        return Some(i);
                    }
                },
                None => {},
            }
            i += 1;
        }
        None
    }

    /// The pair stored under `key`.
    pub fn get(&self, key: &HashKey) -> (r: Option<HashPair>)
        ensures
            match r {
                Some(pair) => hash_get(hash_pairs_model(self.pairs@), *key) == Some(pair@),
                None => hash_get(hash_pairs_model(self.pairs@), *key) is None,
            },
    {
        proof {
            lemma_hash_pairs_model(self.pairs@);
        }
        match self.find(key) {
            Some(i) => Some(self.pairs[i].clone()),
            None => None,
        }
    }

    /// Stores `value` under `key`, in place of the pair that has the same hash key or at the
    /// end, and says so; stores nothing, and says so, where the key is of a kind that has no
    /// hash key.
    pub fn insert(&mut self, key: Object, value: Object) -> (stored: bool)
        ensures
            stored == (hash_key_of(key@) is Some),
            stored ==> hash_pairs_model(final(self).pairs@) == hash_insert(
                hash_pairs_model(old(self).pairs@),
                key@,
                value@,
            ),
            !stored ==> final(self).pairs@ == old(self).pairs@,
    {
        let hash_key = key.hash_key();
        let ghost before = hash_pairs_model(self.pairs@);
        proof {
            lemma_hash_pairs_model(self.pairs@);
        }
        match hash_key {
            Some(k) => {
                match self.find(&k) {
                    Some(i) => {
                        self.pairs.set(i, HashPair { key, value });
                        proof {
                            lemma_hash_pairs_model(self.pairs@);
                            assert(hash_pairs_model(self.pairs@) =~= before.update(
                                i as int,
                                (key@, value@),
                            ));
                        }
                    },
                    None => {
                        self.pairs.push(HashPair { key, value });
                        proof {
                            lemma_hash_pairs_model(self.pairs@);
                            assert(hash_pairs_model(self.pairs@) =~= before.push((key@, value@)));
                        }
                    },
                }
                true
            },
            None => false,
        }
    }
}

} // verus!
