//! The per-client key store: at most one symmetric key per vault id,
//! insertion for an id that already has a key replacing it.  The store is
//! not enumerable from outside: a key is only returned to a caller that
//! already names its vault id.

use vstd::prelude::*;

use crate::ids::{Key, VaultId};
use crate::kvlist::{kv_clone, kv_contains, kv_get, kv_map, kv_upsert, kv_wf};

verus! {

/// The vault-id-to-key registry of one client.
#[derive(Debug, PartialEq, Eq)]
pub struct KeyStore {
    pub entries: Vec<(VaultId, Key)>,
}

impl View for KeyStore {
    type V = Map<Seq<u8>, Seq<u8>>;

    open spec fn view(&self) -> Map<Seq<u8>, Seq<u8>> {
        kv_map(self.entries@)
    }
}

impl KeyStore {
    /// Well-formed store: unique vault ids, well-formed ids and keys.
    pub open spec fn wf(&self) -> bool {
        kv_wf(self.entries@)
    }

    /// An empty key store.
    pub fn new() -> (r: Self)
        ensures
            r@ == Map::<Seq<u8>, Seq<u8>>::empty(),
            r.wf(),
            r.entries@.len() == 0,
    {
        KeyStore { entries: Vec::new() }
    }

    /// Whether a key exists for `vid`, independent of the vault's records.
    pub fn vault_exists(&self, vid: &VaultId) -> (r: bool)
        requires
            self.wf(),
        ensures
            r == self@.contains_key(vid@),
    {
        kv_contains(&self.entries, vid)
    }

    /// The key of `vid`, if one was ever created or inserted for it.
    pub fn get_key(&self, vid: &VaultId) -> (r: Option<Key>)
        requires
            self.wf(),
        ensures
            match r {
                Some(k) => self@.contains_key(vid@) && k@ == self@[vid@] && k.wf(),
                None => !self@.contains_key(vid@),
            },
    {
        kv_get(&self.entries, vid)
    }

    /// Inserts or replaces the key of `vid`: last write wins.
    pub fn insert_key(&mut self, vid: VaultId, key: Key)
        requires
            old(self).wf(),
            vid.wf(),
            key.wf(),
        ensures
            final(self).wf(),
            final(self)@ == old(self)@.insert(vid@, key@),
    {
        kv_upsert(&mut self.entries, vid, key);
    }

    /// Generates and stores a fresh key for `vid`, replacing any old one.
    pub fn create_key(&mut self, vid: VaultId) -> (r: Key)
        requires
            old(self).wf(),
            vid.wf(),
        ensures
            final(self).wf(),
            r.wf(),
            final(self)@ == old(self)@.insert(vid@, r@),
    {
        let key = Key::random();
        let out = key.duplicate();
        kv_upsert(&mut self.entries, vid, key);
        out
    }

    /// An owned copy of the whole store, for snapshot export.
    pub fn export(&self) -> (r: Self)
        requires
            self.wf(),
        ensures
            r@ == self@,
            r.wf(),
            crate::kvlist::kv_view(r.entries@) == crate::kvlist::kv_view(self.entries@),
    {
        let entries = kv_clone(&self.entries);
        proof {
            assert forall|i: int|
                0 <= i < entries@.len() implies (#[trigger] entries@[i]).0.wf()
                && entries@[i].1.wf() by {
                assert(crate::kvlist::kv_view(entries@)[i] == crate::kvlist::kv_view(
                    self.entries@,
                )[i]);
            }
        }
        KeyStore { entries }
    }
}

} // verus!
