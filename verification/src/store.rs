//! The ephemeral unencrypted cache: byte keys mapped to byte values with an
//! optional absolute expiry in milliseconds.  Never encrypted; intended only
//! for non-secret metadata.

use vstd::prelude::*;

use crate::assoc::{assoc_map, has_key, keys_unique, lemma_assoc_map_at, lemma_assoc_map_domain,
    lemma_assoc_map_remove};
use crate::bytes::{bytes_eq, copy_bytes};

verus! {

/// One cache entry: key, value, optional absolute expiry.
pub type StoreEntry = (Vec<u8>, Vec<u8>, Option<u64>);

/// View of the entries.
pub open spec fn store_view(s: Seq<StoreEntry>) -> Seq<(Seq<u8>, (Seq<u8>, Option<u64>))> {
    s.map_values(|e: StoreEntry| (e.0@, (e.1@, e.2)))
}

/// Key projection of a viewed entry.
pub open spec fn store_kf() -> spec_fn((Seq<u8>, (Seq<u8>, Option<u64>))) -> Seq<u8> {
    |p: (Seq<u8>, (Seq<u8>, Option<u64>))| p.0
}

/// Value projection of a viewed entry.
pub open spec fn store_vf() -> spec_fn((Seq<u8>, (Seq<u8>, Option<u64>))) -> (
    Seq<u8>,
    Option<u64>,
) {
    |p: (Seq<u8>, (Seq<u8>, Option<u64>))| p.1
}

/// Relies on std::time::SystemTime: the current time in milliseconds since
/// the Unix epoch; nothing is promised of its value.
#[verifier::external_body]
fn now_millis() -> u64 {
    match std::time::SystemTime::now().duration_since(std::time::UNIX_EPOCH) {
        Ok(d) => d.as_millis() as u64,
        Err(_) => 0,
    }
}

/// The ephemeral cache.
#[derive(Debug, PartialEq, Eq)]
pub struct Store {
    pub entries: Vec<StoreEntry>,
}

impl View for Store {
    type V = Map<Seq<u8>, (Seq<u8>, Option<u64>)>;

    open spec fn view(&self) -> Map<Seq<u8>, (Seq<u8>, Option<u64>)> {
        assoc_map(store_view(self.entries@), store_kf(), store_vf())
    }
}

impl Store {
    /// Well-formed cache: entry keys are unique.
    pub open spec fn wf(&self) -> bool {
        keys_unique(store_view(self.entries@), store_kf())
    }

    /// An empty cache.
    pub fn new() -> (r: Self)
        ensures
            r@ == Map::<Seq<u8>, (Seq<u8>, Option<u64>)>::empty(),
            r.wf(),
            r.entries@.len() == 0,
    {
        Store { entries: Vec::new() }
    }

    /// Scan for the entry of a key.
    fn find(&self, key: &Vec<u8>) -> (r: Option<usize>)
        ensures
            match r {
                Some(i) => i < self.entries@.len() && self.entries@[i as int].0@ == key@,
                None => !has_key(store_view(self.entries@), store_kf(), key@),
            },
    {
        let mut i: usize = 0;
        while i < self.entries.len()
            invariant
                i <= self.entries@.len(),
                forall|j: int| 0 <= j < i ==> (#[trigger] self.entries@[j]).0@ != key@,
            decreases self.entries@.len() - i,
        {
            if bytes_eq(&self.entries[i].0, key) {
                return Some(i);
            }
            i += 1;
        }
        proof {
            let s = store_view(self.entries@);
            if has_key(s, store_kf(), key@) {
                let j = choose|j: int| 0 <= j < s.len() && store_kf()(#[trigger] s[j]) == key@;
                assert(self.entries@[j].0@ == key@);
            }
        }
        None
    }

    /// Inserts or replaces the value under `key`; a lifetime becomes an
    /// absolute expiry measured from the clock now.  Returns the value that
    /// the key held before, if any.
    pub fn insert(&mut self, key: Vec<u8>, value: Vec<u8>, lifetime: Option<u64>) -> (r: Option<
        Vec<u8>,
    >)
        requires
            old(self).wf(),
        ensures
            final(self).wf(),
            exists|e: Option<u64>|
                final(self)@ == old(self)@.insert(key@, (value@, e)) && (e is Some <==> lifetime
                    is Some),
            match r {
                Some(prev) => old(self)@.contains_key(key@) && prev@ == old(self)@[key@].0,
                None => !old(self)@.contains_key(key@),
            },
    {
        let expiry: Option<u64> = match lifetime {
            Some(ms) => {
                let now = now_millis();
                if ms > u64::MAX - now {
                    Some(u64::MAX)
                } else {
                    Some(now + ms)
                }
            },
            None => None,
        };
        self.insert_absolute(key, value, expiry)
    }

    /// Inserts or replaces the value under `key` with an already absolute
    /// expiry.  Returns the value that the key held before, if any.
    pub fn insert_absolute(&mut self, key: Vec<u8>, value: Vec<u8>, expiry: Option<u64>) -> (r:
        Option<Vec<u8>>)
        requires
            old(self).wf(),
        ensures
            final(self).wf(),
            final(self)@ == old(self)@.insert(key@, (value@, expiry)),
            !old(self)@.contains_key(key@) ==> store_view(final(self).entries@) == store_view(
                old(self).entries@,
            ).push((key@, (value@, expiry))),
            match r {
                Some(prev) => old(self)@.contains_key(key@) && prev@ == old(self)@[key@].0,
                None => !old(self)@.contains_key(key@),
            },
    {
        let ghost kb = key@;
        let ghost vb = value@;
        let ghost s0 = self.entries@;
        proof {
            lemma_assoc_map_domain(store_view(s0), store_kf(), store_vf());
        }
        let prev: Option<Vec<u8>> = match self.find(&key) {
            Some(i) => {
                proof {
                    lemma_assoc_map_at(store_view(s0), store_kf(), store_vf(), i as int);
                    lemma_assoc_map_remove(store_view(s0), store_kf(), store_vf(), i as int);
                }
                let old_entry = self.entries.remove(i);
                proof {
                    assert(store_view(self.entries@) =~= store_view(s0).remove(i as int));
                    assert forall|j: int|
                        0 <= j < self.entries@.len() implies (#[trigger] self.entries@[j]).0@
                        != key@ by {
                        if j < i {
                            assert(self.entries@[j] == s0[j]);
                            assert(store_kf()(store_view(s0)[j]) != store_kf()(
                                store_view(s0)[i as int],
                            ));
                        } else {
                            assert(self.entries@[j] == s0[j + 1]);
                            assert(store_kf()(store_view(s0)[i as int]) != store_kf()(
                                store_view(s0)[j + 1],
                            ));
                        }
                    }
                }
                Some(old_entry.1)
            },
            None => {
                proof {
                    assert forall|j: int|
                        0 <= j < self.entries@.len() implies (#[trigger] self.entries@[j]).0@
                        != key@ by {
                        assert(store_kf()(store_view(s0)[j]) == s0[j].0@);
                    }
                }
                None
            },
        };
        let ghost s1 = self.entries@;
        self.entries.push((key, value, expiry));
        proof {
            assert(store_view(self.entries@) =~= store_view(s1).push(
                (self.entries@.last().0@, (self.entries@.last().1@, expiry)),
            ));
            assert(store_view(self.entries@).drop_last() =~= store_view(s1));
            if prev is Some {
                assert(assoc_map(store_view(self.entries@), store_kf(), store_vf()) =~= assoc_map(
                    store_view(s0),
                    store_kf(),
                    store_vf(),
                ).insert(self.entries@.last().0@, (self.entries@.last().1@, expiry)));
            } else {
                assert(assoc_map(store_view(self.entries@), store_kf(), store_vf()) =~= assoc_map(
                    store_view(s0),
                    store_kf(),
                    store_vf(),
                ).insert(self.entries@.last().0@, (self.entries@.last().1@, expiry)));
            }
            assert(keys_unique(store_view(self.entries@), store_kf()));
            assert(self.entries@.last().0@ == kb && self.entries@.last().1@ == vb);
            assert(self@ == old(self)@.insert(kb, (vb, expiry)));
        }
        prev
    }

    /// Reads the value under `key`, unless the key is absent or its entry
    /// may have expired by the clock now.
    pub fn get(&self, key: &Vec<u8>) -> (r: Option<Vec<u8>>)
        requires
            self.wf(),
        ensures
            match r {
                Some(v) => self@.contains_key(key@) && v@ == self@[key@].0,
                None => !self@.contains_key(key@) || self@[key@].1 is Some,
            },
    {
        proof {
            lemma_assoc_map_domain(store_view(self.entries@), store_kf(), store_vf());
        }
        match self.find(key) {
            Some(i) => {
                proof {
                    lemma_assoc_map_at(store_view(self.entries@), store_kf(), store_vf(), i as int);
                }
                match self.entries[i].2 {
                    Some(exp) => {
                        let now = now_millis();
                        if now > exp {
                            None
                        } else {
                            Some(copy_bytes(&self.entries[i].1))
                        }
                    },
                    None => Some(copy_bytes(&self.entries[i].1)),
                }
            },
            None => None,
        }
    }

    /// Whether the cache holds an entry under `key`, expired or not.
    pub fn contains_key(&self, key: &Vec<u8>) -> (r: bool)
        requires
            self.wf(),
        ensures
            r == self@.contains_key(key@),
    {
        proof {
            lemma_assoc_map_domain(store_view(self.entries@), store_kf(), store_vf());
        }
        match self.find(key) {
            Some(i) => {
                proof {
                    assert(store_kf()(store_view(self.entries@)[i as int]) == key@);
                }
                true
            },
            None => false,
        }
    }

    /// An owned copy of the whole cache, for snapshot export.
    pub fn export(&self) -> (r: Self)
        requires
            self.wf(),
        ensures
            r@ == self@,
            r.wf(),
            store_view(r.entries@) == store_view(self.entries@),
    {
        let mut entries: Vec<StoreEntry> = Vec::new();
        let mut i: usize = 0;
        while i < self.entries.len()
            invariant
                i <= self.entries@.len(),
                entries@.len() == i,
                forall|j: int|
                    0 <= j < i ==> (#[trigger] entries@[j]).0@ == self.entries@[j].0@
                        && entries@[j].1@ == self.entries@[j].1@ && entries@[j].2
                        == self.entries@[j].2,
            decreases self.entries@.len() - i,
        {
            let e = (copy_bytes(&self.entries[i].0), copy_bytes(&self.entries[i].1),
                self.entries[i].2);
            entries.push(e);
            i += 1;
        }
        proof {
            assert(store_view(entries@) =~= store_view(self.entries@));
        }
        Store { entries }
    }

    /// Removes the entry under `key`, if any.
    pub fn remove(&mut self, key: &Vec<u8>)
        requires
            old(self).wf(),
        ensures
            final(self).wf(),
            final(self)@ == old(self)@.remove(key@),
    {
        let ghost s0 = self.entries@;
        proof {
            lemma_assoc_map_domain(store_view(s0), store_kf(), store_vf());
        }
        match self.find(key) {
            Some(i) => {
                proof {
                    lemma_assoc_map_remove(store_view(s0), store_kf(), store_vf(), i as int);
                }
                self.entries.remove(i);
                proof {
                    assert(store_view(self.entries@) =~= store_view(s0).remove(i as int));
                    assert forall|a: int, b: int|
                        0 <= a < b < store_view(self.entries@).len() implies store_kf()(
                        store_view(self.entries@)[a],
                    ) != store_kf()(store_view(self.entries@)[b]) by {
                        let a0: int = if a < i { a } else { a + 1 };
                        let b0: int = if b < i { b } else { b + 1 };
                        assert(self.entries@[a] == s0[a0]);
                        assert(self.entries@[b] == s0[b0]);
                        assert(store_kf()(store_view(s0)[a0]) != store_kf()(store_view(s0)[b0]));
                    }
                }
            },
            None => {
                proof {
                    assert(!old(self)@.contains_key(key@));
                    assert(self@ =~= old(self)@.remove(key@));
                }
            },
        }
    }
}

} // verus!
