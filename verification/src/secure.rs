//! The per-client secure state: key store, db view, vault membership set
//! and ephemeral store, with the deterministic address derivation for
//! vaults and records.

use vstd::prelude::*;

use crate::address::{counter_path, counter_record_id_of, first_record_bytes, generic_record_id_of,
    render_debug_bytes, vault_id_of};
use crate::bytes::{ascii_to_string, hex_digits_of, lemma_hex_digits_ascii, render_decimal,
    render_hex};
use crate::db::DbView;
use crate::ids::{ClientId, Key, RecordId, VaultId, load_id_from_path};
use crate::keystore::KeyStore;
use crate::location::Location;
use crate::store::Store;

verus! {

/// How many counters the inverse record-id scan tries before giving up.
pub const INDEX_SCAN_CAP: usize = 32_000_000;

/// Errors of the secret-storage core.
#[derive(Clone, Copy, Debug, PartialEq, Eq, Structural)]
pub enum CoreError {
    /// The requested vault or key was never created for this client.
    NotExisting,
    /// A snapshot could not be decrypted or deserialized.
    BadPasswordOrCorrupt,
    /// An underlying file operation failed.
    IoFailure,
    /// An internal invariant was observed broken.
    InternalInvariantViolation,
}

impl CoreError {
    /// A short description of the error.
    pub fn message(&self) -> (r: &'static str)
    {
        match self {
            CoreError::NotExisting => "vault or key does not exist",
            CoreError::BadPasswordOrCorrupt => "unable to read snapshot, try another password",
            CoreError::IoFailure => "file operation failed",
            CoreError::InternalInvariantViolation => "internal invariant violation",
        }
    }
}

/// Whether some id in the sequence has these bytes.
pub open spec fn vaults_contain(s: Seq<VaultId>, v: Seq<u8>) -> bool {
    exists|i: int| 0 <= i < s.len() && (#[trigger] s[i])@ == v
}

/// The per-client secure state.
pub struct SecureClient {
    /// The key store of this client.
    pub keystore: KeyStore,
    /// The view over the encrypted vault storage.
    pub db: DbView,
    /// The id of this client.
    pub client_id: ClientId,
    /// The authoritative vault membership set.
    pub vaults: Vec<VaultId>,
    /// The ephemeral unencrypted store.
    pub store: Store,
}

impl SecureClient {
    /// The membership set as a set of id bytes.
    pub open spec fn vault_set(&self) -> Set<Seq<u8>> {
        Set::new(|v: Seq<u8>| vaults_contain(self.vaults@, v))
    }

    /// Well-formed client state.
    pub open spec fn wf(&self) -> bool {
        &&& self.keystore.wf()
        &&& self.db.wf()
        &&& self.store.wf()
        &&& self.client_id.wf()
        &&& forall|i: int| 0 <= i < self.vaults@.len() ==> (#[trigger] self.vaults@[i]).wf()
    }

    /// A fresh client with empty key store, db view, membership set and store.
    pub fn new(client_id: ClientId) -> (r: Self)
        requires
            client_id.wf(),
        ensures
            r.wf(),
            r.client_id@ == client_id@,
            r.keystore@ == Map::<Seq<u8>, Seq<u8>>::empty(),
            r.db@ == Map::<Seq<u8>, Seq<u8>>::empty(),
            r.store@ == Map::<Seq<u8>, (Seq<u8>, Option<u64>)>::empty(),
            r.vault_set() == Set::<Seq<u8>>::empty(),
    {
        let vaults: Vec<VaultId> = Vec::new();
        let store = Store::new();
        let r = SecureClient {
            client_id,
            vaults,
            store,
            keystore: KeyStore::new(),
            db: DbView::new(),
        };
        proof {
            assert(r.vault_set() =~= Set::<Seq<u8>>::empty());
        }
        r
    }

    /// Writes unencrypted data to the store; returns the previous value if
    /// the key was already present.
    pub fn write_to_store(&mut self, key: Vec<u8>, data: Vec<u8>, lifetime: Option<u64>) -> (r:
        Option<Vec<u8>>)
        requires
            old(self).wf(),
        ensures
            final(self).wf(),
            exists|e: Option<u64>|
                final(self).store@ == old(self).store@.insert(key@, (data@, e)) && (e is Some
                    <==> lifetime is Some),
            match r {
                Some(prev) => old(self).store@.contains_key(key@) && prev@ == old(
                    self,
                ).store@[key@].0,
                None => !old(self).store@.contains_key(key@),
            },
            final(self).keystore@ == old(self).keystore@,
            final(self).db@ == old(self).db@,
            final(self).client_id@ == old(self).client_id@,
            final(self).vault_set() == old(self).vault_set(),
    {
        self.store.insert(key, data, lifetime)
    }

    /// Reads data from the store; an entry with an expiry may be reported
    /// absent once the clock has passed it.
    pub fn read_from_store(&mut self, key: Vec<u8>) -> (r: Option<Vec<u8>>)
        requires
            old(self).wf(),
        ensures
            *final(self) == *old(self),
            match r {
                Some(v) => old(self).store@.contains_key(key@) && v@ == old(self).store@[key@].0,
                None => !old(self).store@.contains_key(key@) || old(self).store@[key@].1 is Some,
            },
    {
        self.store.get(&key)
    }

    /// Deletes an item from the store by the given key.
    pub fn store_delete_item(&mut self, key: Vec<u8>)
        requires
            old(self).wf(),
        ensures
            final(self).wf(),
            final(self).store@ == old(self).store@.remove(key@),
            final(self).keystore@ == old(self).keystore@,
            final(self).db@ == old(self).db@,
            final(self).client_id@ == old(self).client_id@,
            final(self).vault_set() == old(self).vault_set(),
    {
        self.store.remove(&key)
    }

    /// Whether the key exists in the store, expired or not.
    pub fn store_key_exists(&mut self, key: Vec<u8>) -> (r: bool)
        requires
            old(self).wf(),
        ensures
            *final(self) == *old(self),
            r == old(self).store@.contains_key(key@),
    {
        self.store.contains_key(&key)
    }

    /// Sets the client id, to swap from one client to another.
    pub fn set_client_id(&mut self, client_id: ClientId)
        requires
            old(self).wf(),
            client_id.wf(),
        ensures
            final(self).wf(),
            final(self).client_id@ == client_id@,
            final(self).keystore@ == old(self).keystore@,
            final(self).db@ == old(self).db@,
            final(self).store@ == old(self).store@,
            final(self).vault_set() == old(self).vault_set(),
    {
        self.client_id = client_id;
        proof {
            assert(self.vault_set() =~= old(self).vault_set());
        }
    }

    /// Adds a vault id to the membership set; adding an id twice leaves the
    /// set as after adding it once.
    pub fn add_new_vault(&mut self, vid: VaultId)
        requires
            old(self).wf(),
            vid.wf(),
        ensures
            final(self).wf(),
            final(self).vault_set() == old(self).vault_set().insert(vid@),
            final(self).keystore@ == old(self).keystore@,
            final(self).db@ == old(self).db@,
            final(self).store@ == old(self).store@,
            final(self).client_id@ == old(self).client_id@,
    {
        let mut i: usize = 0;
        while i < self.vaults.len()
            invariant
                i <= self.vaults@.len(),
                *self == *old(self),
                old(self).wf(),
                vid.wf(),
                forall|j: int| 0 <= j < i ==> (#[trigger] self.vaults@[j])@ != vid@,
        decreases self.vaults@.len() - i,
        {
            if self.vaults[i].equals(&vid) {
                proof {
                    assert(vaults_contain(self.vaults@, vid@));
                    assert(old(self).vault_set().contains(vid@));
                    assert(self.vault_set() =~= old(self).vault_set().insert(vid@));
                }
                return ;
            }
            i += 1;
        }
        let ghost s0 = self.vaults@;
        self.vaults.push(vid);
        proof {
            assert forall|v: Seq<u8>| #[trigger]
                vaults_contain(self.vaults@, v) implies vaults_contain(s0, v) || v == vid@ by {
                let j = choose|j: int| 0 <= j < self.vaults@.len() && (#[trigger] self.vaults@[j])@
                    == v;
                if j < s0.len() {
                    assert(s0[j]@ == v);
                }
            }
            assert forall|v: Seq<u8>| vaults_contain(s0, v) implies vaults_contain(
                self.vaults@,
                v,
            ) by {
                let j = choose|j: int| 0 <= j < s0.len() && (#[trigger] s0[j])@ == v;
                assert(self.vaults@[j]@ == v);
            }
            assert(vaults_contain(self.vaults@, vid@)) by {
                assert(self.vaults@[s0.len() as int]@ == vid@);
            }
            assert(self.vault_set() =~= old(self).vault_set().insert(vid@));
        }
    }

    /// Whether the vault id is in the membership set.
    pub fn vault_exist(&self, vid: VaultId) -> (r: Option<&VaultId>)
        ensures
            match r {
                Some(v) => vaults_contain(self.vaults@, vid@) && v@ == vid@,
                None => !vaults_contain(self.vaults@, vid@),
            },
    {
        let mut i: usize = 0;
        while i < self.vaults.len()
            invariant
                i <= self.vaults@.len(),
                forall|j: int| 0 <= j < i ==> (#[trigger] self.vaults@[j])@ != vid@,
            decreases self.vaults@.len() - i,
        {
            if self.vaults[i].equals(&vid) {
                return Some(&self.vaults[i]);
            }
            i += 1;
        }
        proof {
            if vaults_contain(self.vaults@, vid@) {
                let j = choose|j: int| 0 <= j < self.vaults@.len() && (#[trigger] self.vaults@[j])@
                    == vid@;
            }
        }
        None
    }

    /// Drops the vault membership set; the key store, db view and store are
    /// deliberately untouched, ahead of a full rebuild.
    pub fn clear_cache(&mut self) -> (r: Option<()>)
        requires
            old(self).wf(),
        ensures
            final(self).wf(),
            final(self).vault_set() == Set::<Seq<u8>>::empty(),
            final(self).keystore@ == old(self).keystore@,
            final(self).db@ == old(self).db@,
            final(self).store@ == old(self).store@,
            final(self).client_id@ == old(self).client_id@,
            r == Some(()),
    {
        self.vaults = Vec::new();
        proof {
            assert(self.vault_set() =~= Set::<Seq<u8>>::empty());
        }
        Some(())
    }

    /// Wholesale replacement of client id, membership set and store, used
    /// when reloading from a snapshot.
    pub fn rebuild_cache(&mut self, id: ClientId, vaults: Vec<VaultId>, store: Store)
        requires
            old(self).wf(),
            id.wf(),
            store.wf(),
            forall|i: int| 0 <= i < vaults@.len() ==> (#[trigger] vaults@[i]).wf(),
        ensures
            final(self).wf(),
            final(self).client_id@ == id@,
            final(self).vaults@ == vaults@,
            final(self).store@ == store@,
            final(self).keystore@ == old(self).keystore@,
            final(self).db@ == old(self).db@,
    {
        self.client_id = id;
        self.vaults = vaults;
        self.store = store;
    }

    /// Resolves a location to a vault id and a record id.
    pub fn resolve_location(l: &Location) -> (r: (VaultId, RecordId))
        ensures
            r.0.wf(),
            r.1.wf(),
            match l {
                Location::Generic { vault_path, record_path } => r.0@ == vault_id_of(vault_path@)
                    && r.1@ == generic_record_id_of(vault_path@, record_path@),
                Location::Counter { vault_path, counter } => r.0@ == vault_id_of(vault_path@)
                    && r.1@ == counter_record_id_of(vault_path@, *counter as nat),
            },
    {
        match l {
            Location::Generic { vault_path, record_path } => {
                let vid = Self::derive_vault_id(vault_path);
                let rid_bytes = load_id_from_path(&vid.bytes, record_path);
                (vid, RecordId { bytes: rid_bytes })
            },
            Location::Counter { vault_path, counter } => {
                let vid = Self::derive_vault_id(vault_path);
                let rid = Self::derive_record_id(vault_path, *counter);
                (vid, rid)
            },
        }
    }

    /// The vault id of a vault path.
    pub fn derive_vault_id(path: &Vec<u8>) -> (r: VaultId)
        ensures
            r.wf(),
            r@ == vault_id_of(path@),
    {
        VaultId { bytes: load_id_from_path(path, path) }
    }

    /// The record id of the counter `ctr` of a vault path; counter zero uses
    /// a distinguished marker suffix, positive counters their decimal form.
    pub fn derive_record_id(vault_path: &Vec<u8>, ctr: usize) -> (r: RecordId)
        ensures
            r.wf(),
            r@ == counter_record_id_of(vault_path@, ctr as nat),
    {
        let rendered = render_debug_bytes(vault_path);
        let suffix: Vec<u8> = if ctr == 0 {
            first_record_bytes()
        } else {
            render_decimal(ctr as u64)
        };
        let path = crate::bytes::concat_bytes(&rendered, &suffix);
        proof {
            assert(path@ == counter_path(vault_path@, ctr as nat));
        }
        RecordId { bytes: load_id_from_path(&path, &path) }
    }

    /// The client id rendered as lowercase hexadecimal.
    pub fn get_client_str(&self) -> (r: String)
        ensures
            r@.len() == 2 * self.client_id@.len(),
            forall|i: int|
                0 <= i < r@.len() ==> #[trigger] r@[i] as u32 == hex_digits_of(self.client_id@)[i]
                    as u32,
    {
        let h = render_hex(&self.client_id.bytes);
        proof {
            lemma_hex_digits_ascii(self.client_id@);
        }
        ascii_to_string(h)
    }

    /// Recovers the counter that produced `record_id` for this vault path by
    /// scanning counters in order; returns the cap itself when no counter
    /// below it matches, which callers must treat as "not found".
    pub fn get_index_from_record_id(&self, vault_path: &Vec<u8>, record_id: &RecordId) -> (r:
        usize)
        ensures
            r <= INDEX_SCAN_CAP,
            r < INDEX_SCAN_CAP ==> counter_record_id_of(vault_path@, r as nat) == record_id@,
            forall|j: nat| j < r ==> counter_record_id_of(vault_path@, j) != record_id@,
            r == INDEX_SCAN_CAP ==> forall|j: nat|
                j < INDEX_SCAN_CAP ==> counter_record_id_of(vault_path@, j) != record_id@,
    {
        let mut ctr: usize = 0;
        while ctr < INDEX_SCAN_CAP
            invariant
                ctr <= INDEX_SCAN_CAP,
                forall|j: nat| j < ctr ==> counter_record_id_of(vault_path@, j) != record_id@,
            decreases INDEX_SCAN_CAP - ctr,
        {
            let rid = Self::derive_record_id(vault_path, ctr);
            if rid.equals(record_id) {
                return ctr;
            }
            ctr += 1;
        }
        ctr
    }

    /// The key of a vault that was created for this client; refreshes the
    /// key store's entry on the way out.
    pub fn get_key(&mut self, vault_id: VaultId) -> (r: Result<Key, CoreError>)
        requires
            old(self).wf(),
            vault_id.wf(),
        ensures
            final(self).wf(),
            final(self).keystore@ == old(self).keystore@,
            final(self).db@ == old(self).db@,
            final(self).store@ == old(self).store@,
            final(self).client_id@ == old(self).client_id@,
            final(self).vault_set() == old(self).vault_set(),
            match r {
                Ok(k) => old(self).keystore@.contains_key(vault_id@) && k@ == old(
                    self,
                ).keystore@[vault_id@] && k.wf(),
                Err(e) => e == CoreError::NotExisting && !old(self).keystore@.contains_key(
                    vault_id@,
                ),
            },
    {
        match self.keystore.get_key(&vault_id) {
            Some(key) => {
                let out = key.duplicate();
                let ghost ks0 = self.keystore@;
                self.keystore.insert_key(vault_id, key);
                proof {
                    assert(self.keystore@ =~= ks0);
                    assert(self.vault_set() =~= old(self).vault_set());
                }
                Ok(out)
            },
            None => Err(CoreError::NotExisting),
        }
    }

    /// The key of a vault, created (and its vault initialized in the db
    /// view) if the key store does not know the vault yet.
    pub fn get_or_create_key(&mut self, vault_id: VaultId) -> (r: Result<Key, CoreError>)
        requires
            old(self).wf(),
            vault_id.wf(),
        ensures
            final(self).wf(),
            final(self).store@ == old(self).store@,
            final(self).client_id@ == old(self).client_id@,
            final(self).vault_set() == old(self).vault_set(),
            match r {
                Ok(k) => {
                    &&& k.wf()
                    &&& final(self).keystore@ == old(self).keystore@.insert(vault_id@, k@)
                    &&& (old(self).keystore@.contains_key(vault_id@) ==> k@ == old(
                        self,
                    ).keystore@[vault_id@] && final(self).db@ == old(self).db@)
                    &&& (!old(self).keystore@.contains_key(vault_id@) ==> final(self).db@ == old(
                        self,
                    ).db@.insert(vault_id@, k@))
                },
                Err(_) => false,
            },
    {
        let ghost vidb = vault_id@;
        let exists_already = self.keystore.vault_exists(&vault_id);
        let key: Key = if !exists_already {
            let k = self.keystore.create_key(vault_id.duplicate());
            self.db.init_vault(&k, &vault_id);
            k
        } else {
            match self.keystore.get_key(&vault_id) {
                Some(k) => k,
                None => {
                    return Err(CoreError::InternalInvariantViolation);
                },
            }
        };
        let out = key.duplicate();
        let ghost ks1 = self.keystore@;
        self.keystore.insert_key(vault_id, key);
        proof {
            assert(ks1.contains_key(vidb) && ks1[vidb] == out@);
            assert(self.keystore@ =~= ks1);
            assert(self.keystore@ =~= old(self).keystore@.insert(vidb, out@));
            assert(self.vault_set() =~= old(self).vault_set());
        }
        Ok(out)
    }
}


/// Law: adding a vault twice leaves the membership set as after adding it
/// once.  `add_new_vault` promises the set inserted with the id, and
/// inserting an element twice is inserting it once.
pub proof fn lemma_add_new_vault_idempotent(s: Set<Seq<u8>>, v: Seq<u8>)
    ensures
        s.insert(v).insert(v) == s.insert(v),
{
    assert(s.insert(v).insert(v) =~= s.insert(v));
}

} // verus!
