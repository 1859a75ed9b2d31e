use stronghold_core::db::DbView;
use stronghold_core::ids::{ClientId, Key, VaultId};
use stronghold_core::keystore::KeyStore;
use stronghold_core::location::Location;
use stronghold_core::secure::{CoreError, SecureClient};
use stronghold_core::snapshot::{SMsg, SReply, Snapshot};
use stronghold_core::state::{ClientTriple, SnapshotState};
use stronghold_core::store::Store;
use stronghold_core::wire::{decode_state, encode_state};

fn sample_triple(seed: u8) -> ClientTriple {
    let vid = VaultId { bytes: vec![seed; 24] };
    let key = Key { bytes: vec![seed.wrapping_add(1); 32] };
    let mut keys = KeyStore::new();
    keys.insert_key(vid.clone(), key.clone());
    let mut db = DbView::new();
    db.init_vault(&key, &vid);
    let mut store = Store::new();
    store.insert(vec![seed], vec![seed, seed], None);
    ClientTriple { keys, db, store }
}

#[test]
fn encode_decode_roundtrip() {
    let mut st = SnapshotState::new();
    st.add_data(ClientId { bytes: vec![1u8; 24] }, sample_triple(10));
    st.add_data(ClientId { bytes: vec![2u8; 24] }, sample_triple(20));
    let bytes = encode_state(&st);
    let st2 = decode_state(&bytes).expect("an encoded state decodes");
    assert_eq!(st2, st);
}

#[test]
fn decode_rejects_truncated_bytes() {
    let mut st = SnapshotState::new();
    st.add_data(ClientId { bytes: vec![1u8; 24] }, sample_triple(10));
    let mut bytes = encode_state(&st);
    bytes.pop();
    assert!(decode_state(&bytes).is_none());
}

#[test]
fn fill_write_read_roundtrip() {
    let cid = ClientId::random();
    let key = Key::random();
    let triple = sample_triple(3);

    let mut coordinator = Snapshot::new(SnapshotState::new());
    let reply = coordinator.receive(
        SMsg::FillSnapshot { data: triple.export(), id: cid.clone() },
        None,
        None,
    );
    assert!(matches!(reply, SReply::ReturnFill));

    let blob = match coordinator.receive(
        SMsg::WriteSnapshot { key: key.clone(), filename: None, path: None },
        None,
        None,
    ) {
        SReply::ReturnWrite { blob } => blob,
        _ => panic!("write did not return a blob"),
    };

    // Write is a hand-off: the container is empty afterwards.
    assert!(!coordinator.has_data(&cid));

    let mut fresh = Snapshot::new(SnapshotState::new());
    let reply = fresh.receive(
        SMsg::ReadFromSnapshot { key, filename: None, path: None, id: cid.clone(), fid: None },
        Some(blob),
        None,
    );
    match reply {
        SReply::ReloadData { id, data } => {
            assert_eq!(id, cid);
            assert_eq!(data, triple);
        },
        _ => panic!("read did not return the client's data"),
    }
}

#[test]
fn read_without_file_after_write_fails_cleanly() {
    let cid = ClientId::random();
    let key = Key::random();
    let mut coordinator = Snapshot::new(SnapshotState::new());
    coordinator.receive(
        SMsg::FillSnapshot { data: sample_triple(9), id: cid.clone() },
        None,
        None,
    );
    let reply = coordinator.receive(
        SMsg::WriteSnapshot { key: key.clone(), filename: None, path: None },
        None,
        None,
    );
    assert!(matches!(reply, SReply::ReturnWrite { .. }));
    // A fill-free read against another (unreadable) file sees nothing staged.
    let reply = coordinator.receive(
        SMsg::ReadFromSnapshot { key, filename: None, path: None, id: cid, fid: None },
        None,
        None,
    );
    match reply {
        SReply::ReadError { error } => assert_eq!(error, CoreError::IoFailure),
        _ => panic!("read of a missing file must fail"),
    }
}

#[test]
fn read_with_wrong_key_fails_with_password_error() {
    let cid = ClientId::random();
    let right = Key { bytes: vec![7u8; 32] };
    let wrong = Key { bytes: vec![8u8; 32] };
    let mut coordinator = Snapshot::new(SnapshotState::new());
    coordinator.receive(
        SMsg::FillSnapshot { data: sample_triple(5), id: cid.clone() },
        None,
        None,
    );
    let blob = match coordinator.receive(
        SMsg::WriteSnapshot { key: right, filename: None, path: None },
        None,
        None,
    ) {
        SReply::ReturnWrite { blob } => blob,
        _ => panic!("write did not return a blob"),
    };
    match Snapshot::read_from_snapshot(&blob, &wrong) {
        Err(e) => assert_eq!(e, CoreError::BadPasswordOrCorrupt),
        Ok(_) => panic!("a wrong key must not open a snapshot"),
    }
    // Corrupted bytes fail with the same indistinguishable error.
    let mut corrupt = blob.clone();
    let last = corrupt.len() - 1;
    corrupt[last] ^= 0xff;
    let wrong_key_reply = Snapshot::read_from_snapshot(&corrupt, &Key { bytes: vec![7u8; 32] });
    match wrong_key_reply {
        Err(e) => assert_eq!(e, CoreError::BadPasswordOrCorrupt),
        Ok(_) => panic!("corrupt bytes must not open"),
    }
}

#[test]
fn synchronize_merges_client_into_target() {
    let ca = ClientId { bytes: vec![0xaa; 24] };
    let cb = ClientId { bytes: vec![0xbb; 24] };
    let ka = Key { bytes: vec![1u8; 32] };
    let kb = Key { bytes: vec![2u8; 32] };
    let ta = sample_triple(40);
    let tb = sample_triple(50);

    let mut a = Snapshot::new(SnapshotState::new());
    a.receive(SMsg::FillSnapshot { data: ta.export(), id: ca.clone() }, None, None);
    let blob_a = match a.receive(
        SMsg::WriteSnapshot { key: ka.clone(), filename: None, path: None },
        None,
        None,
    ) {
        SReply::ReturnWrite { blob } => blob,
        _ => panic!("write did not return a blob"),
    };

    let mut b = Snapshot::new(SnapshotState::new());
    b.receive(SMsg::FillSnapshot { data: tb.export(), id: cb.clone() }, None, None);
    let blob_b = match b.receive(
        SMsg::WriteSnapshot { key: kb.clone(), filename: None, path: None },
        None,
        None,
    ) {
        SReply::ReturnWrite { blob } => blob,
        _ => panic!("write did not return a blob"),
    };

    let mut coordinator = Snapshot::new(SnapshotState::new());
    let out = match coordinator.receive(
        SMsg::SynchronizeSnapshot {
            id: ca.clone(),
            key: ka,
            f_other: None,
            p_other: None,
            p_target: "target".to_string(),
            k_target: kb.clone(),
        },
        Some(blob_a),
        Some(blob_b),
    ) {
        SReply::ReturnSynchronize { target_blob } => target_blob,
        _ => panic!("synchronize did not return a target blob"),
    };

    let merged = Snapshot::read_from_snapshot(&out, &kb).expect("merged target opens");
    assert!(merged.has_data(&ca));
    assert!(merged.has_data(&cb));
    assert_eq!(merged.get_state(&ca), ta);
    assert_eq!(merged.get_state(&cb), tb);
}

#[test]
fn counter_record_survives_persistence() {
    let loc = Location::counter(b"passwords".to_vec(), 0);
    let loc1 = Location::counter(b"passwords".to_vec(), 1);
    let (vid, rid) = SecureClient::resolve_location(&loc);
    let (_, rid1) = SecureClient::resolve_location(&loc1);
    assert_ne!(rid, rid1);

    let cid = ClientId::random();
    let mut client = SecureClient::new(cid.clone());
    client.add_new_vault(vid);
    client.get_or_create_key(SecureClient::derive_vault_id(&b"passwords".to_vec())).unwrap();
    client.write_to_store(rid.bytes.clone(), b"hunter2".to_vec(), None);

    let triple = ClientTriple {
        keys: client.keystore.export(),
        db: client.db.export(),
        store: client.store.export(),
    };
    let key = Key::random();
    let mut coordinator = Snapshot::new(SnapshotState::new());
    coordinator.receive(SMsg::FillSnapshot { data: triple, id: cid.clone() }, None, None);
    let blob = match coordinator.receive(
        SMsg::WriteSnapshot { key: key.clone(), filename: None, path: None },
        None,
        None,
    ) {
        SReply::ReturnWrite { blob } => blob,
        _ => panic!("write did not return a blob"),
    };

    let mut fresh = Snapshot::new(SnapshotState::new());
    let reply = fresh.receive(
        SMsg::ReadFromSnapshot { key, filename: None, path: None, id: cid.clone(), fid: None },
        Some(blob),
        None,
    );
    let data = match reply {
        SReply::ReloadData { id, data } => {
            assert_eq!(id, cid);
            data
        },
        _ => panic!("read did not return the client's data"),
    };

    let mut reloaded = SecureClient::new(ClientId::random());
    reloaded.rebuild_cache(cid, Vec::new(), data.store);
    let (_, rid_again) = SecureClient::resolve_location(&loc);
    assert_eq!(rid_again, rid);
    assert_eq!(reloaded.read_from_store(rid_again.bytes.clone()), Some(b"hunter2".to_vec()));
}
