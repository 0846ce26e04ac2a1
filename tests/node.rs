use metamesh::node::{
    create_address, delete_address, ping_check, recover_keys, retry_pending_packets, NodeError,
};
use metamesh::storage::SecureStorage;
use metamesh::transport::{
    BleTransport, DispatchOutcome, TransportError, TransportKind, TransportMonitor,
};
use metamesh::{MetaMeshPacket, PacketFlags, PacketType};
use sha2::Digest;

#[test]
fn recover_returns_the_stored_identity() {
    let mut storage = SecureStorage::new();
    let created = create_address(&mut storage, &[4u8; 32], 1000).unwrap();
    let recovered = recover_keys(&mut storage, &created.mnemonic, 2000).unwrap();
    assert_eq!(recovered.seed_id, created.seed_id);
    assert_eq!(recovered.public_key, created.public_key);
    assert_eq!(recovered.private_key, created.private_key);
    assert_eq!(recovered.created_at, 1000);
    assert_eq!(storage.list_identities().unwrap().len(), 1);
}

#[test]
fn recover_of_an_unknown_phrase_stores_it() {
    let mut storage = SecureStorage::new();
    let id = recover_keys(&mut storage, "a phrase never stored", 77).unwrap();
    assert_eq!(id.created_at, 77);
    assert_eq!(storage.get_identity(&id.seed_id).unwrap(), Some(id.clone()));
    let again = recover_keys(&mut storage, "a phrase never stored", 99).unwrap();
    assert_eq!(again, id);
}

#[test]
fn delete_needs_at_least_one_id() {
    let mut storage = SecureStorage::new();
    assert_eq!(delete_address(&mut storage, &[]), Err(NodeError::InvalidArgument));
    let created = create_address(&mut storage, &[4u8; 32], 1000).unwrap();
    let (deleted, not_found) =
        delete_address(&mut storage, &[created.seed_id.clone(), "0000000000000000".to_string()]).unwrap();
    assert_eq!(deleted, vec![created.seed_id]);
    assert_eq!(not_found, vec!["0000000000000000".to_string()]);
}

#[test]
fn ping_is_queued_with_ttl_retries_and_expires_after_them() {
    let mut storage = SecureStorage::new();
    let mut monitor = TransportMonitor::new();
    let created = create_address(&mut storage, &[6u8; 32], 1000).unwrap();
    let info = ping_check(&mut storage, &mut monitor, &created.seed_id, [9; 8], 1000).unwrap();

    let packet = MetaMeshPacket::decode(&info.packet_bytes).unwrap();
    assert_eq!(packet.header.packet_type, PacketType::Ping);
    assert_eq!(packet.header.ttl, 5);
    assert_eq!(packet.header.version, 1);
    assert!(packet.header.flags.contains(PacketFlags::BROADCAST));
    assert_eq!(&packet.header.from_seed, created.seed_id.as_bytes());
    assert_eq!(packet.header.to_seed, [0u8; 16]);
    assert_eq!(packet.header.nonce, [9; 8]);
    assert_eq!(info.packet_hex, hex::encode(&info.packet_bytes));
    let digest = sha2::Sha256::digest(&info.packet_bytes);
    assert_eq!(info.packet_id, hex::encode(digest)[..16].to_string());

    let queued = storage.get_pending_packets().unwrap();
    assert_eq!(queued.len(), 1);
    assert_eq!(queued[0].max_retries, 5);
    assert_eq!(queued[0].retry_count, 0);
    assert_eq!(queued[0].packet_type, "Ping");

    let mut now = 1000;
    for attempt in 1..=5u32 {
        now += 300;
        let report = retry_pending_packets(&mut storage, &mut monitor, now).unwrap();
        assert_eq!(report.retried, vec![info.packet_id.clone()]);
        assert_eq!(report.results.len(), 1);
        assert_eq!(report.results[0].outcome, DispatchOutcome::NotAvailable);
        if attempt < 5 {
            assert_eq!(report.removed, 0);
            assert_eq!(storage.get_pending_packets().unwrap()[0].retry_count, attempt);
        } else {
            assert_eq!(report.removed, 1);
        }
    }
    assert!(storage.get_pending_packets().unwrap().is_empty());
}

#[test]
fn retry_waits_for_the_interval() {
    let mut storage = SecureStorage::new();
    let mut monitor = TransportMonitor::new();
    let created = create_address(&mut storage, &[6u8; 32], 1000).unwrap();
    ping_check(&mut storage, &mut monitor, &created.seed_id, [1; 8], 1000).unwrap();
    let report = retry_pending_packets(&mut storage, &mut monitor, 1299).unwrap();
    assert!(report.retried.is_empty());
    assert!(report.results.is_empty());
    assert_eq!(storage.get_pending_packets().unwrap()[0].retry_count, 0);
}

#[test]
fn ping_needs_a_known_seed_id() {
    let mut storage = SecureStorage::new();
    let mut monitor = TransportMonitor::new();
    assert_eq!(ping_check(&mut storage, &mut monitor, "", [0; 8], 1).unwrap_err(), NodeError::InvalidArgument);
    assert_eq!(ping_check(&mut storage, &mut monitor, "1234", [0; 8], 1).unwrap_err(), NodeError::NotFound);
    assert!(storage.get_pending_packets().unwrap().is_empty());
}

#[test]
fn dispatch_with_no_transport_enabled_succeeds_nowhere() {
    let mut monitor = TransportMonitor::new();
    let results = monitor.send_to_all_transports(&[1, 2, 3]);
    assert_eq!(results.len(), 1);
    assert_eq!(results[0].transport, TransportKind::Ble);
    assert_eq!(results[0].outcome, DispatchOutcome::NotAvailable);
    assert!(!results[0].succeeded());
    assert_eq!(results[0].describe(), "BLE: Not available");
}

#[test]
fn dispatch_after_start_sends() {
    let mut monitor = TransportMonitor::new();
    assert_eq!(monitor.start(true), 1);
    let results = monitor.send_to_all_transports(&[1, 2, 3]);
    assert_eq!(results[0].outcome, DispatchOutcome::Sent);
    assert_eq!(results[0].describe(), "BLE: Sent successfully");
}

#[test]
fn poll_reports_changes_only() {
    let mut monitor = TransportMonitor::new();
    assert_eq!(monitor.poll_availability(true), None);
    assert_eq!(monitor.start(true), 1);
    assert_eq!(monitor.poll_availability(true), None);
    assert_eq!(monitor.poll_availability(false), Some(0));
    assert_eq!(monitor.poll_availability(false), None);
    assert_eq!(monitor.poll_availability(true), Some(1));
}

#[test]
fn start_without_radio_leaves_transport_disabled() {
    let mut monitor = TransportMonitor::new();
    assert_eq!(monitor.start(false), 0);
    assert_eq!(monitor.send_to_all_transports(&[0])[0].outcome, DispatchOutcome::NotAvailable);
    let mut ble = BleTransport::new();
    assert_eq!(ble.start_listener(false), Err(TransportError::BluetoothNotAvailable));
    assert!(!ble.is_enabled());
    assert_eq!(
        ble.send_packet(&[1]),
        Err(TransportError::SendFailed("BLE transport not enabled".to_string()))
    );
    assert!(ble.start_listener(true).is_ok());
    assert!(ble.send_packet(&[1]).is_ok());
    assert!(!ble.monitor_status(false));
    assert!(ble.monitor_status(true));
}

#[test]
fn transport_error_messages() {
    assert_eq!(TransportError::BluetoothNotAvailable.message(), "Bluetooth not available on this platform");
    assert_eq!(TransportError::BluetoothNotEnabled.message(), "Bluetooth is not enabled");
    assert_eq!(TransportError::ConnectionFailed("x".to_string()).message(), "Connection failed: x");
    assert_eq!(TransportError::SendFailed("y".to_string()).message(), "Send failed: y");
}
