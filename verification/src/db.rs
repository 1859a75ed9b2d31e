//! The view over the encrypted vault/record storage engine.  The core never
//! inspects ciphertext: what it reads of the engine is which vaults have
//! been initialized and under which key, and that is what this view models
//! and what a snapshot carries.

use vstd::prelude::*;

use crate::ids::{Key, VaultId};
use crate::kvlist::{kv_clone, kv_contains, kv_map, kv_upsert, kv_wf};

verus! {

/// The per-client view over encrypted vault storage.
#[derive(Debug, PartialEq, Eq)]
pub struct DbView {
    pub vaults: Vec<(VaultId, Key)>,
}

impl View for DbView {
    type V = Map<Seq<u8>, Seq<u8>>;

    open spec fn view(&self) -> Map<Seq<u8>, Seq<u8>> {
        kv_map(self.vaults@)
    }
}

impl DbView {
    /// Well-formed view: unique vault ids, well-formed ids and keys.
    pub open spec fn wf(&self) -> bool {
        kv_wf(self.vaults@)
    }

    /// An empty view.
    pub fn new() -> (r: Self)
        ensures
            r@ == Map::<Seq<u8>, Seq<u8>>::empty(),
            r.wf(),
            r.vaults@.len() == 0,
    {
        DbView { vaults: Vec::new() }
    }

    /// Initializes an empty vault under `key`, replacing any prior
    /// initialization of the same vault id.
    pub fn init_vault(&mut self, key: &Key, vid: &VaultId)
        requires
            old(self).wf(),
            key.wf(),
            vid.wf(),
        ensures
            final(self).wf(),
            final(self)@ == old(self)@.insert(vid@, key@),
    {
        kv_upsert(&mut self.vaults, vid.duplicate(), key.duplicate());
    }

    /// Whether a vault id has been initialized in this view.
    pub fn contains_vault(&self, vid: &VaultId) -> (r: bool)
        requires
            self.wf(),
        ensures
            r == self@.contains_key(vid@),
    {
        kv_contains(&self.vaults, vid)
    }

    /// An owned copy of the whole view, for snapshot export.
    pub fn export(&self) -> (r: Self)
        requires
            self.wf(),
        ensures
            r@ == self@,
            r.wf(),
            crate::kvlist::kv_view(r.vaults@) == crate::kvlist::kv_view(self.vaults@),
    {
        let vaults = kv_clone(&self.vaults);
        proof {
            assert forall|i: int|
                0 <= i < vaults@.len() implies (#[trigger] vaults@[i]).0.wf()
                && vaults@[i].1.wf() by {
                assert(crate::kvlist::kv_view(vaults@)[i] == crate::kvlist::kv_view(
                    self.vaults@,
                )[i]);
            }
        }
        DbView { vaults }
    }
}

} // verus!
