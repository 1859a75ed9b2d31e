use stronghold_core::anymap::{AnyMap, AnyValue};
use stronghold_core::ids::{ClientId, VaultId};
use stronghold_core::location::Location;
use stronghold_core::secure::{CoreError, SecureClient};

#[test]
fn test_add() {
    let vid = VaultId::random();

    let mut cache: SecureClient = SecureClient::new(ClientId::random());

    cache.add_new_vault(vid.clone());

    assert_eq!(cache.vault_exist(vid.clone()), Some(&vid));
}

#[test]
fn test_rid_internals() {
    let clientid = ClientId::random();

    let vid = VaultId::random();
    let vid2 = VaultId::random();
    let vault_path = b"some_vault".to_vec();

    let mut client: SecureClient = SecureClient::new(clientid);
    let mut ctr: usize = 0;
    let mut ctr2: usize = 0;

    let _rid = SecureClient::derive_record_id(&vault_path, ctr);
    let _rid2 = SecureClient::derive_record_id(&vault_path, ctr2);

    client.add_new_vault(vid);

    client.add_new_vault(vid2);

    ctr += 1;
    ctr2 += 1;

    let _rid = SecureClient::derive_record_id(&vault_path, ctr);
    let _rid2 = SecureClient::derive_record_id(&vault_path, ctr2);

    ctr += 1;

    let rid = SecureClient::derive_record_id(&vault_path, ctr);

    let test_rid = SecureClient::derive_record_id(&vault_path, 2);
    let ctr = client.get_index_from_record_id(&vault_path, &rid);

    assert_eq!(test_rid, rid);
    assert_eq!(2, ctr);
}

#[test]
fn test_location_counter_api() {
    let clientid = ClientId::random();

    let vidlochead = Location::counter(b"some_vault".to_vec(), 0);
    let vidlochead2 = Location::counter(b"some_vault 2".to_vec(), 0);

    let mut client: SecureClient = SecureClient::new(clientid);

    let (vid, rid) = SecureClient::resolve_location(&vidlochead);
    let (vid2, rid2) = SecureClient::resolve_location(&vidlochead2);

    client.add_new_vault(vid);
    client.add_new_vault(vid2);

    let (_, rid_head) = SecureClient::resolve_location(&vidlochead);
    let (_, rid_head_2) = SecureClient::resolve_location(&vidlochead2);

    assert_eq!(rid, rid_head);
    assert_eq!(rid2, rid_head_2);
}

#[test]
fn vault_id_derivation_is_deterministic() {
    let p = b"passwords".to_vec();
    let a = SecureClient::derive_vault_id(&p);
    let b = SecureClient::derive_vault_id(&p);
    assert_eq!(a, b);
    let c = SecureClient::derive_vault_id(&b"other".to_vec());
    assert_ne!(a, c);
}

#[test]
fn counter_zero_and_one_give_distinct_record_ids() {
    let p = b"passwords".to_vec();
    let r0 = SecureClient::derive_record_id(&p, 0);
    let r1 = SecureClient::derive_record_id(&p, 1);
    assert_ne!(r0, r1);
    assert_eq!(r0, SecureClient::derive_record_id(&p, 0));
}

#[test]
fn index_scan_recovers_counter() {
    let p = b"some_vault".to_vec();
    let client = SecureClient::new(ClientId::random());
    let rid = SecureClient::derive_record_id(&p, 5);
    assert_eq!(client.get_index_from_record_id(&p, &rid), 5);
    let loc = Location::counter(b"some_vault".to_vec(), 7);
    let (_, rid7) = SecureClient::resolve_location(&loc);
    assert_eq!(client.get_index_from_record_id(&p, &rid7), 7);
}

#[test]
fn store_write_read_delete() {
    let mut client = SecureClient::new(ClientId::random());
    assert_eq!(client.write_to_store(b"k".to_vec(), b"v1".to_vec(), None), None);
    let prev = client.write_to_store(b"k".to_vec(), b"v2".to_vec(), None);
    assert_eq!(prev, Some(b"v1".to_vec()));
    assert_eq!(client.read_from_store(b"k".to_vec()), Some(b"v2".to_vec()));
    assert!(client.store_key_exists(b"k".to_vec()));
    client.store_delete_item(b"k".to_vec());
    assert_eq!(client.read_from_store(b"k".to_vec()), None);
    assert!(!client.store_key_exists(b"k".to_vec()));
}

#[test]
fn store_entry_with_long_lifetime_is_readable() {
    let mut client = SecureClient::new(ClientId::random());
    client.write_to_store(b"k".to_vec(), b"v".to_vec(), Some(1_000_000_000));
    assert_eq!(client.read_from_store(b"k".to_vec()), Some(b"v".to_vec()));
}

#[test]
fn get_key_of_unknown_vault_is_not_existing() {
    let mut client = SecureClient::new(ClientId::random());
    let vid = VaultId::random();
    assert_eq!(client.get_key(vid), Err(CoreError::NotExisting));
}

#[test]
fn get_or_create_key_then_get_key_agree() {
    let mut client = SecureClient::new(ClientId::random());
    let vid = VaultId::random();
    let k1 = client.get_or_create_key(vid.clone()).unwrap();
    let k2 = client.get_key(vid.clone()).unwrap();
    let k3 = client.get_or_create_key(vid).unwrap();
    assert_eq!(k1, k2);
    assert_eq!(k1, k3);
}

#[test]
fn add_new_vault_twice_keeps_one_entry() {
    let mut client = SecureClient::new(ClientId::random());
    let vid = VaultId::random();
    client.add_new_vault(vid.clone());
    client.add_new_vault(vid.clone());
    assert_eq!(client.vaults.len(), 1);
    assert_eq!(client.vault_exist(vid.clone()), Some(&vid));
}

#[test]
fn clear_cache_drops_membership_only() {
    let mut client = SecureClient::new(ClientId::random());
    let vid = VaultId::random();
    client.add_new_vault(vid.clone());
    client.write_to_store(b"k".to_vec(), b"v".to_vec(), None);
    assert_eq!(client.clear_cache(), Some(()));
    assert_eq!(client.vault_exist(vid), None);
    assert_eq!(client.read_from_store(b"k".to_vec()), Some(b"v".to_vec()));
}

#[test]
fn client_str_is_lowercase_hex() {
    let id = ClientId { bytes: vec![171u8; 24] };
    let client = SecureClient::new(id);
    assert_eq!(client.get_client_str(), "ab".repeat(24));
}

#[test]
fn anymap_insert_get_clear() {
    let mut map = AnyMap::new();
    map.insert(b"key0".to_vec(), AnyValue::Unsigned(0));
    map.insert(b"key1".to_vec(), AnyValue::Text("hello".to_string()));
    assert_eq!(map.get(&b"key0".to_vec()), Some(&AnyValue::Unsigned(0)));
    assert_eq!(map.get(&b"key1".to_vec()), Some(&AnyValue::Text("hello".to_string())));
    map.insert(b"key0".to_vec(), AnyValue::Flag(true));
    assert_eq!(map.get(&b"key0".to_vec()), Some(&AnyValue::Flag(true)));
    assert_eq!(map.get(&b"missing".to_vec()), None);
    map.clear();
    assert_eq!(map.get(&b"key0".to_vec()), None);
}

#[test]
fn test_alphabet_iterator() {
    let mut iter = stronghold_core::alphabet::alphabetical(32).into_iter().skip(28);

    assert_eq!(iter.next(), Some(b"AC".to_vec()));
    assert_eq!(iter.next(), Some(b"AD".to_vec()));
    assert_eq!(iter.next(), Some(b"AE".to_vec()));
    assert_eq!(iter.next(), Some(b"AF".to_vec()));
    assert_eq!(iter.next(), None);
}
