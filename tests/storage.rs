use aes_gcm::aead::{Aead, KeyInit};
use metamesh::identity::generate_seed_identity;
use metamesh::storage::{QueuedPacket, SecureStorage, StorageError, StoredIdentity};
use sha2::Digest;

fn identity(n: u8) -> StoredIdentity {
    let id = generate_seed_identity(&[n; 32]).unwrap();
    StoredIdentity {
        seed_id: id.seed_id,
        private_key: id.private_key,
        public_key: id.public_key,
        mnemonic: id.mnemonic,
        created_at: 1234567890,
    }
}

fn packet(id: &str, created_at: u64, retry_count: u32, max_retries: u32, ack: bool) -> QueuedPacket {
    QueuedPacket {
        packet_id: id.to_string(),
        packet_bytes: vec![1, 2, 3],
        packet_type: "Ping".to_string(),
        created_at,
        retry_count,
        last_retry: created_at,
        max_retries,
        ack_received: ack,
    }
}

fn ids_of(v: &[QueuedPacket]) -> Vec<String> {
    let mut ids: Vec<String> = v.iter().map(|p| p.packet_id.clone()).collect();
    ids.sort();
    ids
}

#[test]
fn test_storage_encryption() {
    let mut storage = SecureStorage::new();
    let stored = identity(1);
    storage.store_identity(stored.clone()).unwrap();
    let retrieved = storage.get_identity(&stored.seed_id).unwrap().unwrap();
    assert_eq!(retrieved.seed_id, stored.seed_id);
    assert_eq!(retrieved.private_key, stored.private_key);
    let file = storage.identities_file().clone();
    assert!(file.len() > 12);
    let text = String::from_utf8_lossy(&file);
    assert!(!text.contains(&stored.mnemonic));
}

#[test]
fn test_delete_operations() {
    let mut storage = SecureStorage::new();
    let a = identity(1);
    let b = identity(2);
    storage.store_identity(a.clone()).unwrap();
    storage.store_identity(b.clone()).unwrap();
    let (deleted, not_found) = storage.delete_identities(&[a.seed_id.clone()]).unwrap();
    assert_eq!(deleted, vec![a.seed_id.clone()]);
    assert!(not_found.is_empty());
    let (deleted, not_found) = storage.delete_identities(&[a.seed_id.clone()]).unwrap();
    assert!(deleted.is_empty());
    assert_eq!(not_found, vec![a.seed_id.clone()]);
    assert_eq!(storage.delete_all_identities().unwrap(), 1);
    assert_eq!(storage.list_identities().unwrap().len(), 0);
}

#[test]
fn saved_store_loads_back_from_its_file() {
    let mut storage = SecureStorage::new();
    let a = identity(1);
    let b = identity(2);
    storage.store_identity(a.clone()).unwrap();
    storage.store_identity(b.clone()).unwrap();
    storage.queue_packet(packet("p1", 100, 0, 5, false)).unwrap();
    let reopened = SecureStorage::from_files(storage.identities_file().clone(), storage.packets_file().clone());
    let mut list = reopened.list_identities().unwrap();
    list.sort_by(|x, y| x.seed_id.cmp(&y.seed_id));
    let mut expected = vec![a, b];
    expected.sort_by(|x, y| x.seed_id.cmp(&y.seed_id));
    assert_eq!(list, expected);
    assert_eq!(reopened.get_pending_packets().unwrap(), vec![packet("p1", 100, 0, 5, false)]);
}

#[test]
fn same_seed_id_replaces_the_record() {
    let mut storage = SecureStorage::new();
    let a = identity(1);
    storage.store_identity(a.clone()).unwrap();
    let mut newer = a.clone();
    newer.created_at = 99;
    storage.store_identity(newer.clone()).unwrap();
    assert_eq!(storage.list_identities().unwrap(), vec![newer]);
}

#[test]
fn missing_file_is_an_empty_store() {
    let storage = SecureStorage::from_files(Vec::new(), Vec::new());
    assert!(storage.list_identities().unwrap().is_empty());
    assert!(storage.get_pending_packets().unwrap().is_empty());
    assert_eq!(storage.get_identity("0000000000000001").unwrap(), None);
}

#[test]
fn tampered_file_fails_to_decrypt() {
    let mut storage = SecureStorage::new();
    storage.store_identity(identity(1)).unwrap();
    let mut file = storage.identities_file().clone();
    let last = file.len() - 1;
    file[last] ^= 1;
    let tampered = SecureStorage::from_files(file, Vec::new());
    assert_eq!(tampered.list_identities(), Err(StorageError::Decryption));
    let mut file = storage.identities_file().clone();
    file[20] ^= 0x80;
    let tampered = SecureStorage::from_files(file, Vec::new());
    assert_eq!(tampered.get_identity("x"), Err(StorageError::Decryption));
    let short = SecureStorage::from_files(vec![1, 2, 3], Vec::new());
    assert_eq!(short.list_identities(), Err(StorageError::Decryption));
}

#[test]
fn packet_file_with_another_key_fails_to_decrypt() {
    let mut storage = SecureStorage::new();
    storage.store_identity(identity(1)).unwrap();
    let swapped = SecureStorage::from_files(Vec::new(), storage.identities_file().clone());
    assert_eq!(swapped.get_pending_packets(), Err(StorageError::Decryption));
}

#[test]
fn authentic_file_that_is_not_a_record_list_fails_to_parse() {
    let key = sha2::Sha256::digest(b"metamesh-identities-key-v1");
    let cipher = aes_gcm::Aes256Gcm::new_from_slice(&key).unwrap();
    let nonce = [7u8; 12];
    let ct = cipher.encrypt(aes_gcm::Nonce::from_slice(&nonce), b"not json".as_ref()).unwrap();
    let mut file = nonce.to_vec();
    file.extend_from_slice(&ct);
    let storage = SecureStorage::from_files(file, Vec::new());
    assert_eq!(storage.list_identities(), Err(StorageError::Deserialization));
}

#[test]
fn find_by_mnemonic_matches_the_phrase() {
    let mut storage = SecureStorage::new();
    let a = identity(1);
    let b = identity(2);
    storage.store_identity(a.clone()).unwrap();
    storage.store_identity(b.clone()).unwrap();
    assert_eq!(storage.find_by_mnemonic(&b.mnemonic).unwrap(), Some(b));
    assert_eq!(storage.find_by_mnemonic("no such phrase").unwrap(), None);
}

#[test]
fn delete_separates_found_and_missing_ids() {
    let mut storage = SecureStorage::new();
    let a = identity(1);
    storage.store_identity(a.clone()).unwrap();
    let request = vec![a.seed_id.clone(), "9999999999999999".to_string()];
    let (deleted, not_found) = storage.delete_identities(&request).unwrap();
    assert_eq!(deleted, vec![a.seed_id.clone()]);
    assert_eq!(not_found, vec!["9999999999999999".to_string()]);
    assert_eq!(storage.get_identity(&a.seed_id).unwrap(), None);
}

#[test]
fn sweep_removes_exhausted_packets() {
    let mut storage = SecureStorage::new();
    storage.queue_packet(packet("done", 1000, 5, 5, false)).unwrap();
    storage.queue_packet(packet("live", 1000, 4, 5, false)).unwrap();
    assert_eq!(storage.remove_expired_packets_at(1100).unwrap(), 1);
    assert_eq!(ids_of(&storage.get_pending_packets().unwrap()), vec!["live".to_string()]);
}

#[test]
fn sweep_removes_old_packets_regardless_of_state() {
    let mut storage = SecureStorage::new();
    storage.queue_packet(packet("old", 1000, 0, 5, false)).unwrap();
    storage.queue_packet(packet("edge", 1400, 0, 5, false)).unwrap();
    storage.queue_packet(packet("future", 9000, 0, 5, false)).unwrap();
    assert_eq!(storage.remove_expired_packets_at(4801).unwrap(), 1);
    assert_eq!(ids_of(&storage.get_pending_packets().unwrap()), vec!["edge".to_string(), "future".to_string()]);
    assert_eq!(storage.remove_expired_packets_at(5001).unwrap(), 1);
}

#[test]
fn sweep_removes_acknowledged_packets() {
    let mut storage = SecureStorage::new();
    storage.queue_packet(packet("a", 1000, 0, 5, false)).unwrap();
    storage.queue_packet(packet("b", 1000, 0, 5, false)).unwrap();
    storage.mark_packet_acked("a").unwrap();
    assert_eq!(ids_of(&storage.get_pending_packets().unwrap()), vec!["b".to_string()]);
    assert_eq!(storage.remove_expired_packets_at(1001).unwrap(), 1);
    storage.mark_packet_acked("missing").unwrap();
    assert_eq!(storage.remove_expired_packets_at(1001).unwrap(), 0);
}

#[test]
fn retry_count_and_time_are_recorded() {
    let mut storage = SecureStorage::new();
    storage.queue_packet(packet("a", 1000, 0, 5, false)).unwrap();
    storage.increment_retry_count_at("a", 1300).unwrap();
    storage.increment_retry_count_at("a", 1600).unwrap();
    let p = storage.get_pending_packets().unwrap().pop().unwrap();
    assert_eq!(p.retry_count, 2);
    assert_eq!(p.last_retry, 1600);
    storage.increment_retry_count("a").unwrap();
    let p = storage.get_pending_packets().unwrap().pop().unwrap();
    assert_eq!(p.retry_count, 3);
    assert!(p.last_retry >= 1600);
}
