//! The snapshot container and its message-driven coordinator: staging of
//! client triples, encrypted serialization to a blob, decryption back, and
//! the cross-file synchronize merge.  File reads and writes happen outside;
//! the coordinator decides over bytes handed in and blobs handed back.

use vstd::prelude::*;

use crate::codec::{enc_state, lemma_parse_state_complete, parse_state, rows_lens_ok,
    triple_lens_ok, TripleView};
use crate::assoc::assoc_map;
use crate::ids::{ClientId, Key};
use crate::secure::CoreError;
use crate::state::{empty_triple, state_kf, state_vf, state_view, ClientTriple, SnapshotState};
use crate::wire::{decode_state, encode_state, rows_tables_unique};

use chacha20poly1305::aead::Aead;
use chacha20poly1305::{KeyInit, XChaCha20Poly1305, XNonce};
use rand::Rng;

verus! {

/// What deterministic authenticated decryption of `blob` under `key` gives:
/// the sealed plain bytes, or nothing when key or blob do not fit.
pub uninterp spec fn opened(key: Seq<u8>, blob: Seq<u8>) -> Option<Seq<u8>>;

/// Relies on chacha20poly1305::XChaCha20Poly1305 (encrypt): seals the plain
/// bytes under the key with a fresh random 24-byte nonce, prepended to the
/// ciphertext; opening the result under the same key yields the plain bytes.
#[verifier::external_body]
fn seal_bytes(key: &Key, plain: &Vec<u8>) -> (r: Option<Vec<u8>>)
    requires
        key.wf(),
    ensures
        r matches Some(blob) ==> opened(key@, blob@) == Some(plain@),
{
    let cipher = match XChaCha20Poly1305::new_from_slice(key.bytes.as_slice()) {
        Ok(c) => c,
        Err(_) => return None,
    };
    let mut nonce = [0u8; 24];
    rand::rng().fill_bytes(&mut nonce);
    let ct = match cipher.encrypt(&XNonce::from(nonce), plain.as_slice()) {
        Ok(c) => c,
        Err(_) => return None,
    };
    let mut out = nonce.to_vec();
    out.extend(ct);
    Some(out)
}

/// Relies on chacha20poly1305::XChaCha20Poly1305 (decrypt): deterministic
/// authenticated opening of a sealed blob; fails on a wrong key, a bad tag
/// or malformed bytes.
#[verifier::external_body]
fn open_bytes(key: &Key, blob: &Vec<u8>) -> (r: Option<Vec<u8>>)
    requires
        key.wf(),
    ensures
        match r {
            Some(pt) => opened(key@, blob@) == Some(pt@),
            None => opened(key@, blob@) is None,
        },
{
    if blob.len() < 24 {
        return None;
    }
    let cipher = match XChaCha20Poly1305::new_from_slice(key.bytes.as_slice()) {
        Ok(c) => c,
        Err(_) => return None,
    };
    let nonce = match XNonce::try_from(&blob[..24]) {
        Ok(n) => n,
        Err(_) => return None,
    };
    cipher.decrypt(&nonce, &blob[24..]).ok()
}

/// The client rows sealed in a blob under a key, when it opens and parses.
pub open spec fn blob_rows(key: Seq<u8>, blob: Seq<u8>) -> Option<Seq<(Seq<u8>, TripleView)>> {
    match opened(key, blob) {
        Some(pt) => match parse_state(pt, 0) {
            Some((rows, p)) => Some(rows),
            None => None,
        },
        None => None,
    }
}

/// The map described by client rows.
pub open spec fn rows_map(rows: Seq<(Seq<u8>, TripleView)>) -> Map<Seq<u8>, TripleView> {
    assoc_map(rows, state_kf(), state_vf())
}

/// A well-formed state's rows have admissible widths and unique keys.
pub proof fn lemma_state_rows_ok(st: SnapshotState)
    requires
        st.wf(),
    ensures
        rows_lens_ok(state_view(st.clients@)),
        rows_tables_unique(state_view(st.clients@)),
        state_view(st.clients@).len() < 0x1_0000_0000_0000_0000,
        forall|i: int|
            0 <= i < state_view(st.clients@).len() ==> (#[trigger] state_view(st.clients@)[i]).1.0.len()
                < 0x1_0000_0000_0000_0000 && state_view(st.clients@)[i].1.1.len()
                < 0x1_0000_0000_0000_0000 && state_view(st.clients@)[i].1.2.len()
                < 0x1_0000_0000_0000_0000,
{
    let rows = state_view(st.clients@);
    assert(vstd::std_specs::vec::spec_vec_len(&st.clients) == st.clients@.len());
    assert forall|i: int|
        0 <= i < rows.len() implies (#[trigger] rows[i]).0.len() == crate::ID_LEN as nat
        && triple_lens_ok(rows[i].1) && rows[i].1.0.len() < 0x1_0000_0000_0000_0000
        && rows[i].1.1.len() < 0x1_0000_0000_0000_0000 && rows[i].1.2.len()
        < 0x1_0000_0000_0000_0000 && keys_unique_row(rows[i].1) by {
        let t = st.clients@[i].1;
        assert(vstd::std_specs::vec::spec_vec_len(&t.keys.entries) == t.keys.entries@.len());
        assert(vstd::std_specs::vec::spec_vec_len(&t.db.vaults) == t.db.vaults@.len());
        assert(vstd::std_specs::vec::spec_vec_len(&t.store.entries) == t.store.entries@.len());
        assert forall|j: int|
            0 <= j < rows[i].1.2.len() implies (#[trigger] rows[i].1.2[j]).0.len()
            <= usize::MAX as nat && rows[i].1.2[j].1.0.len() <= usize::MAX as nat by {
            let e = t.store.entries@[j];
            assert(vstd::std_specs::vec::spec_vec_len(&e.0) == e.0@.len());
            assert(vstd::std_specs::vec::spec_vec_len(&e.1) == e.1@.len());
        }
    }
}

/// All three tables of one row have unique keys.
pub open spec fn keys_unique_row(t: TripleView) -> bool {
    &&& crate::assoc::keys_unique(t.0, crate::kvlist::kv_kf())
    &&& crate::assoc::keys_unique(t.1, crate::kvlist::kv_kf())
    &&& crate::assoc::keys_unique(t.2, crate::store::store_kf())
}

/// Sealing a well-formed state and opening it again yields exactly its rows.
pub proof fn lemma_snapshot_roundtrip(st: SnapshotState, key: Seq<u8>, blob: Seq<u8>)
    requires
        st.wf(),
        opened(key, blob) == Some(enc_state(state_view(st.clients@))),
    ensures
        blob_rows(key, blob) == Some(state_view(st.clients@)),
        rows_tables_unique(state_view(st.clients@)),
        rows_map(state_view(st.clients@)) == st@,
{
    lemma_state_rows_ok(st);
    lemma_parse_state_complete(enc_state(state_view(st.clients@)), state_view(st.clients@));
}

/// What a successful synchronize promises of the blob it hands back: when
/// the source and target rows are known and have unique keys throughout,
/// the new target opens under the target key to the target's clients with
/// the subject client's triple from the source inserted, all others kept.
pub open spec fn synchronize_post(
    src: Option<Seq<(Seq<u8>, TripleView)>>,
    tgt: Option<Seq<(Seq<u8>, TripleView)>>,
    idb: Seq<u8>,
    target_key: Seq<u8>,
    out: Seq<u8>,
) -> bool {
    match (src, tgt) {
        (Some(srows), Some(trows)) => rows_tables_unique(srows) && rows_tables_unique(trows)
            ==> (match blob_rows(target_key, out) {
            Some(orows) => rows_map(orows) == (if rows_map(srows).contains_key(idb) {
                rows_map(trows).insert(idb, rows_map(srows)[idb])
            } else {
                rows_map(trows)
            }),
            None => false,
        }),
        _ => false,
    }
}

/// The snapshot container: the staged state of zero or more clients.
#[derive(Debug, PartialEq, Eq)]
pub struct Snapshot {
    pub state: SnapshotState,
}

impl Snapshot {
    /// Well-formed container.
    pub open spec fn wf(&self) -> bool {
        self.state.wf()
    }

    /// A container over a given staged state.
    pub fn new(state: SnapshotState) -> (r: Self)
        ensures
            r.state == state,
    {
        Snapshot { state }
    }

    /// Whether a triple is staged for `id`.
    pub fn has_data(&self, id: &ClientId) -> (r: bool)
        requires
            self.wf(),
        ensures
            r == self.state@.contains_key(id@),
    {
        self.state.has_data(id)
    }

    /// A client's staged triple, or an empty triple when none is staged.
    pub fn get_state(&self, id: &ClientId) -> (r: ClientTriple)
        requires
            self.wf(),
        ensures
            r.wf(),
            self.state@.contains_key(id@) ==> r@ == self.state@[id@],
            !self.state@.contains_key(id@) ==> r@ == empty_triple(),
    {
        self.state.get_state(id)
    }

    /// Serializes and seals the staged state under `key`, then clears the
    /// staged state: a write is a hand-off, not a checkpoint.
    pub fn write_to_snapshot(&mut self, key: &Key) -> (r: Result<Vec<u8>, CoreError>)
        requires
            old(self).wf(),
            key.wf(),
        ensures
            final(self).wf(),
            match r {
                Ok(blob) => {
                    &&& opened(key@, blob@) == Some(
                        enc_state(state_view(old(self).state.clients@)),
                    )
                    &&& blob_rows(key@, blob@) == Some(state_view(old(self).state.clients@))
                    &&& rows_map(state_view(old(self).state.clients@)) == old(self).state@
                    &&& final(self).state@ == Map::<Seq<u8>, TripleView>::empty()
                },
                Err(e) => e == CoreError::IoFailure && *final(self) == *old(self),
            },
    {
        let encoded = encode_state(&self.state);
        match seal_bytes(key, &encoded) {
            Some(blob) => {
                proof {
                    lemma_snapshot_roundtrip(self.state, key@, blob@);
                }
                self.state = SnapshotState::new();
                Ok(blob)
            },
            None => Err(CoreError::IoFailure),
        }
    }

    /// Opens and deserializes a snapshot blob under `key` into a fresh
    /// container.  A wrong key, a bad tag and malformed contents all give
    /// the same opaque error, so no decryption oracle leaks outward.
    pub fn read_from_snapshot(blob: &Vec<u8>, key: &Key) -> (r: Result<Snapshot, CoreError>)
        requires
            key.wf(),
        ensures
            r is Ok <==> blob_rows(key@, blob@) is Some,
            match r {
                Ok(snap) => snap.wf() && (match blob_rows(key@, blob@) {
                    Some(rows) => rows_tables_unique(rows) ==> state_view(snap.state.clients@)
                        == rows,
                    None => false,
                }),
                Err(e) => e == CoreError::BadPasswordOrCorrupt,
            },
    {
        match open_bytes(key, blob) {
            Some(pt) => match decode_state(&pt) {
                Some(st) => Ok(Snapshot { state: st }),
                None => Err(CoreError::BadPasswordOrCorrupt),
            },
            None => Err(CoreError::BadPasswordOrCorrupt),
        }
    }

    /// Merges the subject client's triple from the "other" snapshot (or from
    /// the loaded container when no other blob is given) into the target
    /// snapshot, and seals the merged state under the target key.  A subject
    /// client with no data merely leaves the target unchanged.
    pub fn synchronize(
        &self,
        id: &ClientId,
        key: &Key,
        other_blob: Option<&Vec<u8>>,
        target_blob: Option<&Vec<u8>>,
        target_key: &Key,
    ) -> (r: Result<Vec<u8>, CoreError>)
        requires
            self.wf(),
            id.wf(),
            key.wf(),
            target_key.wf(),
        ensures
            match r {
                Ok(out) => synchronize_post(
                    match other_blob {
                        Some(b) => blob_rows(key@, b@),
                        None => Some(state_view(self.state.clients@)),
                    },
                    match target_blob {
                        Some(b) => blob_rows(target_key@, b@),
                        None => Some(Seq::<(Seq<u8>, TripleView)>::empty()),
                    },
                    id@,
                    target_key@,
                    out@,
                ),
                Err(e) => e == CoreError::BadPasswordOrCorrupt || e == CoreError::IoFailure,
            },
    {
        let source: SnapshotState = match other_blob {
            Some(b) => match Self::read_from_snapshot(b, key) {
                Ok(snap) => snap.state,
                Err(e) => {
                    return Err(e);
                },
            },
            None => self.state.export(),
        };
        let mut target: Snapshot = match target_blob {
            Some(b) => match Self::read_from_snapshot(b, target_key) {
                Ok(snap) => snap,
                Err(e) => {
                    return Err(e);
                },
            },
            None => Snapshot { state: SnapshotState::new() },
        };
        if source.has_data(id) {
            let t = source.get_state(id);
            target.state.add_data(id.duplicate(), t);
        }
        let encoded = encode_state(&target.state);
        match seal_bytes(target_key, &encoded) {
            Some(out) => {
                proof {
                    lemma_snapshot_roundtrip(target.state, target_key@, out@);
                }
                Ok(out)
            },
            None => Err(CoreError::IoFailure),
        }
    }
}


/// The requests of the snapshot coordinator.  Filename and path overrides
/// travel with the request; resolving them to a file is the caller's work,
/// which hands the file's bytes in and carries blobs back out.
pub enum SMsg {
    /// Seal the staged state and hand the blob back to be written.
    WriteSnapshot { key: Key, filename: Option<String>, path: Option<String> },
    /// Stage one client's exported triple.
    FillSnapshot { data: ClientTriple, id: ClientId },
    /// Reply with a client's triple, from the staged state or from a file.
    ReadFromSnapshot {
        key: Key,
        filename: Option<String>,
        path: Option<String>,
        id: ClientId,
        fid: Option<ClientId>,
    },
    /// Merge one client's state from one snapshot file into another.
    SynchronizeSnapshot {
        id: ClientId,
        key: Key,
        f_other: Option<String>,
        p_other: Option<String>,
        p_target: String,
        k_target: Key,
    },
}

impl SMsg {
    /// Well-formed request: all keys and ids have their fixed widths.
    pub open spec fn wf(&self) -> bool {
        match self {
            SMsg::WriteSnapshot { key, .. } => key.wf(),
            SMsg::FillSnapshot { data, id } => data.wf() && id.wf(),
            SMsg::ReadFromSnapshot { key, id, fid, .. } => key.wf() && id.wf() && (match fid {
                Some(f) => f.wf(),
                None => true,
            }),
            SMsg::SynchronizeSnapshot { id, key, k_target, .. } => id.wf() && key.wf()
                && k_target.wf(),
        }
    }

    /// The client id a read request is about: the forwarding id if given.
    pub open spec fn read_subject(&self) -> Seq<u8>
        recommends
            self is ReadFromSnapshot,
    {
        match self {
            SMsg::ReadFromSnapshot { id, fid, .. } => match fid {
                Some(f) => f@,
                None => id@,
            },
            _ => Seq::empty(),
        }
    }
}

/// The replies of the snapshot coordinator.
pub enum SReply {
    /// The triple was staged.
    ReturnFill,
    /// The staged state was sealed; the blob is to be written atomically.
    ReturnWrite { blob: Vec<u8> },
    /// Sealing failed; the staged state is untouched.
    WriteError { error: CoreError },
    /// The requested client's triple, for reinjection.
    ReloadData { id: ClientId, data: ClientTriple },
    /// The snapshot could not be read; retry with another password.
    ReadError { error: CoreError },
    /// The merged target snapshot, sealed under the target key.
    ReturnSynchronize { target_blob: Vec<u8> },
    /// The merge failed; nothing was changed.
    SynchronizeError { error: CoreError },
}

impl Snapshot {
    /// Handles one request to completion: the coordinator's mailbox
    /// serializes requests, so no two operations race on the container.
    /// `file` carries the bytes of the request's snapshot file where one is
    /// needed (the read file, or the synchronize "other" file), and
    /// `target_file` the synchronize target's bytes.
    pub fn receive(&mut self, msg: SMsg, file: Option<Vec<u8>>, target_file: Option<Vec<u8>>) -> (r:
        SReply)
        requires
            old(self).wf(),
            msg.wf(),
        ensures
            final(self).wf(),
            msg matches SMsg::FillSnapshot { data, id } ==> final(self).state@ == old(
                self,
            ).state@.insert(id@, data@) && r is ReturnFill,
            (msg matches SMsg::WriteSnapshot { key, .. } ==> match r {
                SReply::ReturnWrite { blob } => {
                    &&& blob_rows(key@, blob@) == Some(state_view(old(self).state.clients@))
                    &&& rows_map(state_view(old(self).state.clients@)) == old(self).state@
                    &&& final(self).state@ == Map::<Seq<u8>, TripleView>::empty()
                },
                SReply::WriteError { error } => error == CoreError::IoFailure && *final(self)
                    == *old(self),
                _ => false,
            }),
            (msg matches SMsg::ReadFromSnapshot { key, id, fid, .. } ==> {
                let cid = msg.read_subject();
                &&& (old(self).state@.contains_key(cid) ==> *final(self) == *old(self) && (
                match r {
                    SReply::ReloadData { id: rid, data } => rid@ == cid && data@ == old(
                        self,
                    ).state@[cid],
                    _ => false,
                }))
                &&& (!old(self).state@.contains_key(cid) && file is None ==> *final(self) == *old(
                    self,
                ) && (match r {
                    SReply::ReadError { error } => error == CoreError::IoFailure,
                    _ => false,
                }))
                &&& (match file {
                    Some(blob) => !old(self).state@.contains_key(cid) ==> (match blob_rows(
                        key@,
                        blob@,
                    ) {
                        Some(rows) => rows_tables_unique(rows) ==> (match r {
                            SReply::ReloadData { id: rid, data } => {
                                &&& rid@ == cid
                                &&& state_view(final(self).state.clients@) == rows
                                &&& (rows_map(rows).contains_key(cid) ==> data@ == rows_map(
                                    rows,
                                )[cid])
                                &&& (!rows_map(rows).contains_key(cid) ==> data@
                                    == empty_triple())
                            },
                            _ => false,
                        }),
                        None => *final(self) == *old(self) && (match r {
                            SReply::ReadError { error } => error
                                == CoreError::BadPasswordOrCorrupt,
                            _ => false,
                        }),
                    }),
                    None => true,
                })
            }),
            (msg matches SMsg::SynchronizeSnapshot { id, key, k_target, .. } ==> *final(self)
                == *old(self) && (match r {
                SReply::ReturnSynchronize { target_blob } => synchronize_post(
                    match file {
                        Some(b) => blob_rows(key@, b@),
                        None => Some(state_view(old(self).state.clients@)),
                    },
                    match target_file {
                        Some(b) => blob_rows(k_target@, b@),
                        None => Some(Seq::<(Seq<u8>, TripleView)>::empty()),
                    },
                    id@,
                    k_target@,
                    target_blob@,
                ),
                SReply::SynchronizeError { error } => error == CoreError::BadPasswordOrCorrupt
                    || error == CoreError::IoFailure,
                _ => false,
            })),
    {
        match msg {
            SMsg::FillSnapshot { data, id } => {
                self.state.add_data(id, data);
                SReply::ReturnFill
            },
            SMsg::WriteSnapshot { key, filename: _, path: _ } => match self.write_to_snapshot(
                &key,
            ) {
                Ok(blob) => SReply::ReturnWrite { blob },
                Err(error) => SReply::WriteError { error },
            },
            SMsg::ReadFromSnapshot { key, filename: _, path: _, id, fid } => {
                let cid = match fid {
                    Some(f) => f,
                    None => id,
                };
                if self.state.has_data(&cid) {
                    let data = self.state.get_state(&cid);
                    SReply::ReloadData { id: cid, data }
                } else {
                    match file {
                        Some(blob) => match Self::read_from_snapshot(&blob, &key) {
                            Ok(snap) => {
                                let data = snap.get_state(&cid);
                                *self = snap;
                                SReply::ReloadData { id: cid, data }
                            },
                            Err(error) => SReply::ReadError { error },
                        },
                        None => SReply::ReadError { error: CoreError::IoFailure },
                    }
                }
            },
            SMsg::SynchronizeSnapshot { id, key, f_other: _, p_other: _, p_target: _, k_target } => {
                let other: Option<&Vec<u8>> = match &file {
                    Some(b) => Some(b),
                    None => None,
                };
                let tgt: Option<&Vec<u8>> = match &target_file {
                    Some(b) => Some(b),
                    None => None,
                };
                match self.synchronize(&id, &key, other, tgt, &k_target) {
                    Ok(target_blob) => SReply::ReturnSynchronize { target_blob },
                    Err(error) => SReply::SynchronizeError { error },
                }
            },
        }
    }
}

} // verus!
