//! A byte-keyed map whose values range over a closed set of payload kinds:
//! a tagged union replaces runtime type erasure, so every retrieval is
//! checked by the type system rather than by a cast.

use vstd::prelude::*;

use crate::assoc::assoc_map;
use crate::bytes::bytes_eq;

verus! {

/// One stored payload.
#[derive(Clone, Debug, PartialEq, Eq)]
pub enum AnyValue {
    /// Raw bytes.
    Bytes(Vec<u8>),
    /// Text.
    Text(String),
    /// An unsigned number.
    Unsigned(u64),
    /// A flag.
    Flag(bool),
}

/// A map from byte keys to tagged payloads; the latest insertion for a key
/// wins.
#[derive(Debug)]
pub struct AnyMap {
    pub entries: Vec<(Vec<u8>, AnyValue)>,
}

/// Key projection of an entry.
pub open spec fn any_kf() -> spec_fn((Vec<u8>, AnyValue)) -> Seq<u8> {
    |e: (Vec<u8>, AnyValue)| e.0@
}

/// Value projection of an entry.
pub open spec fn any_vf() -> spec_fn((Vec<u8>, AnyValue)) -> AnyValue {
    |e: (Vec<u8>, AnyValue)| e.1
}

impl View for AnyMap {
    type V = Map<Seq<u8>, AnyValue>;

    open spec fn view(&self) -> Map<Seq<u8>, AnyValue> {
        assoc_map(self.entries@, any_kf(), any_vf())
    }
}

impl AnyMap {
    /// An empty map.
    pub fn new() -> (r: Self)
        ensures
            r@ == Map::<Seq<u8>, AnyValue>::empty(),
    {
        AnyMap { entries: Vec::new() }
    }

    /// Inserts some data into the map under `key`, replacing what the key
    /// held before.
    pub fn insert(&mut self, key: Vec<u8>, value: AnyValue)
        ensures
            final(self)@ == old(self)@.insert(key@, value),
    {
        let ghost kb = key@;
        let ghost vb = value;
        let ghost s0 = self.entries@;
        self.entries.push((key, value));
        proof {
            assert(self.entries@.drop_last() =~= s0);
            assert(any_kf()(self.entries@.last()) == kb);
            assert(any_vf()(self.entries@.last()) == vb);
        }
    }

    /// Retrieves the stored value under `key`, if any.
    pub fn get(&self, key: &Vec<u8>) -> (r: Option<&AnyValue>)
        ensures
            match r {
                Some(v) => self@.contains_key(key@) && *v == self@[key@],
                None => !self@.contains_key(key@),
            },
    {
        let mut i: usize = self.entries.len();
        proof {
            assert(self.entries@.take(self.entries@.len() as int) =~= self.entries@);
        }
        while i > 0
            invariant
                i <= self.entries@.len(),
                self@.contains_key(key@) == assoc_map(
                    self.entries@.take(i as int),
                    any_kf(),
                    any_vf(),
                ).contains_key(key@),
                self@.contains_key(key@) ==> self@[key@] == assoc_map(
                    self.entries@.take(i as int),
                    any_kf(),
                    any_vf(),
                )[key@],
            decreases i,
        {
            i -= 1;
            proof {
                let t = self.entries@.take(i as int + 1);
                assert(t.drop_last() =~= self.entries@.take(i as int));
                assert(t.last() == self.entries@[i as int]);
                assert(any_kf()(t.last()) == self.entries@[i as int].0@);
            }
            if bytes_eq(&self.entries[i].0, key) {
                return Some(&self.entries[i].1);
            }
        }
        proof {
            assert(self.entries@.take(0) =~= Seq::<(Vec<u8>, AnyValue)>::empty());
        }
        None
    }

    /// Clears all data inside the map.
    pub fn clear(&mut self)
        ensures
            final(self)@ == Map::<Seq<u8>, AnyValue>::empty(),
    {
        self.entries = Vec::new();
    }
}

} // verus!
