//! A hash table keyed by values that have an integer code of their own.

use std::collections::HashMap;
use vstd::prelude::*;

verus! {

broadcast use vstd::std_specs::hash::group_hash_axioms;

/// Keys of a [`Table`]: different keys have different codes.
pub trait Key: Copy {
    /// The integer that stands for the key.
    spec fn code(self) -> u128;

    /// Keys with the same code are the same key.
    proof fn lemma_code_injective(self, other: Self)
        requires
            self.code() == other.code(),
        ensures
            self == other,
    ;

    /// The integer that stands for the key.
    fn encode(&self) -> (r: u128)
        ensures
            r == self.code(),
    ;
}

/// A map from keys to values.
pub struct Table<K: Key, V> {
    inner: HashMap<u128, (K, V)>,
}

impl<K: Key, V> View for Table<K, V> {
    type V = Map<K, V>;

    closed spec fn view(&self) -> Map<K, V> {
        Map::new(
            |k: K| self.inner@.dom().contains(k.code()) && self.inner@[k.code()].0 == k,
            |k: K| self.inner@[k.code()].1,
        )
    }
}

/// `order` lists the elements of `s`, each once.
pub open spec fn lists<K>(order: Seq<K>, s: Set<K>) -> bool {
    &&& order.no_duplicates()
    &&& forall|k: K| #[trigger] s.contains(k) <==> order.contains(k)
}

impl<K: Key, V> Table<K, V> {
    #[verifier::type_invariant]
    spec fn valid(self) -> bool {
        forall|c: u128| #[trigger]
            self.inner@.dom().contains(c) ==> self.inner@[c].0.code() == c
    }

    /// An empty table.
    pub fn new() -> (r: Self)
        ensures
            r@ == Map::<K, V>::empty(),
    {
        let r = Table { inner: HashMap::new() };
        assert(r@ =~= Map::<K, V>::empty());
        r
    }

    /// The value for `key`, if there is one.
    pub fn get(&self, key: &K) -> (r: Option<&V>)
        ensures
            r == if self@.dom().contains(*key) {
                Some(&self@[*key])
            } else {
                None
            },
    {
        proof {
            use_type_invariant(self);
        }
        let code: u128 = key.encode();
        match self.inner.get(&code) {
            Some(entry) => {
                proof {
                    entry.0.lemma_code_injective(*key);
                }
                Some(&entry.1)
            },
            None => None,
        }
    }

    /// Is there a value for `key`?
    pub fn contains(&self, key: &K) -> (r: bool)
        ensures
            r == self@.dom().contains(*key),
    {
        self.get(key).is_some()
    }

    /// Set the value for `key`.
    pub fn insert(&mut self, key: K, value: V)
        ensures
            final(self)@ == old(self)@.insert(key, value),
    {
        proof {
            use_type_invariant(&*self);
        }
        let ghost before = self.inner@;
        let code: u128 = key.encode();
        let mut inner: HashMap<u128, (K, V)> = HashMap::new();
        std::mem::swap(&mut inner, &mut self.inner);
        inner.insert(code, (key, value));
        proof {
            assert forall|k: K| #[trigger] k.code() == code implies k == key by {
                k.lemma_code_injective(key);
            }
        }
        self.inner = inner;
        assert(self@ =~= old(self)@.insert(key, value));
    }

    /// Remove and return the value for `key`, if there is one.
    pub fn remove(&mut self, key: &K) -> (r: Option<V>)
        ensures
            r == if old(self)@.dom().contains(*key) {
                Some(old(self)@[*key])
            } else {
                None
            },
            final(self)@ == old(self)@.remove(*key),
    {
        proof {
            use_type_invariant(&*self);
        }
        let code: u128 = key.encode();
        let mut inner: HashMap<u128, (K, V)> = HashMap::new();
        std::mem::swap(&mut inner, &mut self.inner);
        let entry = inner.remove(&code);
        proof {
            assert forall|k: K| #[trigger] k.code() == code implies k == *key by {
                k.lemma_code_injective(*key);
            }
            if old(self).inner@.dom().contains(code) {
                old(self).inner@[code].0.lemma_code_injective(*key);
            }
        }
        self.inner = inner;
        assert(self@ =~= old(self)@.remove(*key));
        match entry {
            Some((_, value)) => Some(value),
            None => None,
        }
    }

    /// Number of keys with a value.
    pub fn len(&self) -> (r: usize)
        ensures
            r == self@.len(),
            self@.dom().finite(),
    {
        proof {
            use_type_invariant(self);
            let f = |c: u128| self.inner@[c].0;
            assert(self.inner@.dom().map(f) =~= self@.dom()) by {
                assert forall|k: K| #[trigger] self@.dom().contains(k) implies self.inner@.dom().map(
                    f,
                ).contains(k) by {
                    assert(self.inner@.dom().contains(k.code()) && f(k.code()) == k);
                }
            }
            vstd::set_lib::lemma_map_size(self.inner@.dom(), self@.dom(), f);
        }
        self.inner.len()
    }

    /// The keys, each once, in no particular order.
    pub fn keys(&self) -> (r: Vec<K>)
        ensures
            lists(r@, self@.dom()),
    {
        proof {
            use_type_invariant(self);
        }
        let mut codes: Vec<u128> = Vec::new();
        for c in iter: self.inner.keys()
            invariant
                codes@.len() == iter.index(),
                forall|i: int| 0 <= i < codes@.len() ==> codes@[i] == *iter.seq()[i],
        {
            codes.push(*c);
        }
        let ghost seq = codes@;
        proof {
            let all = vstd::std_specs::iter::IteratorSpec::remaining(
                &vstd::std_specs::hash::spec_keys_iter(&self.inner),
            );
            assert(seq =~= all.unref());
            assert(seq.to_set() == self.inner@.dom());
            assert forall|i: int, j: int| 0 <= i < j < seq.len() implies seq[i] != seq[j] by {
                assert(all[i] != all[j]);
            }
        }
        let mut out: Vec<K> = Vec::new();
        let mut i: usize = 0;
        while i < codes.len()
            invariant
                i <= codes.len(),
                codes@ == seq,
                seq.to_set() == self.inner@.dom(),
                self.valid(),
                out@.len() == i,
                forall|j: int|
                    0 <= j < i ==> self.inner@.dom().contains(seq[j]) && #[trigger] out@[j]
                        == self.inner@[seq[j]].0,
            decreases codes.len() - i,
        {
            let c: u128 = codes[i];
            assert(seq.to_set().contains(seq[i as int]));
            match self.inner.get(&c) {
                Some(entry) => {
                    out.push(entry.0);
                },
                None => {
                    assert(false);
                },
            }
            i = i + 1;
        }
        proof {
            assert forall|k: K| #[trigger] self@.dom().contains(k) implies out@.contains(k) by {
                assert(seq.to_set().contains(k.code()));
                let j = choose|j: int| 0 <= j < seq.len() && seq[j] == k.code();
                assert(out@[j] == k);
            }
            assert forall|k: K| #[trigger] out@.contains(k) implies self@.dom().contains(k) by {
                let j = choose|j: int| 0 <= j < out@.len() && out@[j] == k;
                assert(self.inner@.dom().contains(seq[j]));
            }
            assert forall|a: int, b: int| 0 <= a < b < out@.len() implies out@[a] != out@[b] by {
                assert(seq[a] != seq[b]);
                assert(out@[a].code() == seq[a] && out@[b].code() == seq[b]);
            }
        }
        out
    }

    /// Keep the entries for which `keep` returns true, and remove the others.
    pub fn retain<F: Fn(&K, &V) -> bool>(&mut self, keep: F)
        requires
            forall|k: K, v: V| #[trigger] keep.requires((&k, &v)),
        ensures
            forall|k: K| #[trigger]
                final(self)@.dom().contains(k) ==> {
                    &&& old(self)@.dom().contains(k)
                    &&& final(self)@[k] == old(self)@[k]
                    &&& keep.ensures((&k, &old(self)@[k]), true)
                },
            forall|k: K| #[trigger]
                old(self)@.dom().contains(k) && !final(self)@.dom().contains(k) ==> keep.ensures(
                    (&k, &old(self)@[k]),
                    false,
                ),
    {
        let keys = self.keys();
        let ghost before = self@;
        let mut i: usize = 0;
        while i < keys.len()
            invariant
                i <= keys.len(),
                forall|k: K, v: V| #[trigger] keep.requires((&k, &v)),
                lists(keys@, before.dom()),
                forall|k: K| #[trigger]
                    self@.dom().contains(k) ==> before.dom().contains(k) && self@[k] == before[k],
                forall|j: int|
                    #![trigger keys@[j]]
                    0 <= j < i && self@.dom().contains(keys@[j]) ==> keep.ensures(
                        (&keys@[j], &before[keys@[j]]),
                        true,
                    ),
                forall|k: K| #[trigger]
                    before.dom().contains(k) && !self@.dom().contains(k) ==> keep.ensures(
                        (&k, &before[k]),
                        false,
                    ),
                forall|j: int|
                    #![trigger keys@[j]]
                    i <= j < keys@.len() ==> self@.dom().contains(keys@[j]),
            decreases keys.len() - i,
        {
            let key: K = keys[i];
            assert(self@.dom().contains(keys@[i as int]));
            let stay: bool = match self.get(&key) {
                Some(value) => keep(&key, value),
                None => true,
            };
            if !stay {
                let _ = self.remove(&key);
            }
            i = i + 1;
        }
        proof {
            assert forall|k: K| #[trigger] self@.dom().contains(k) implies keep.ensures(
                (&k, &before[k]),
                true,
            ) by {
                assert(keys@.contains(k));
                let j = choose|j: int| 0 <= j < keys@.len() && keys@[j] == k;
                assert(self@.dom().contains(keys@[j]));
            }
        }
    }
}

} // verus!
