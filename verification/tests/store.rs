use std::path::PathBuf;

use airsend::commands::{
    accept_transfer_reply, check_send_paths, now_timestamp, queue_outgoing_transfer,
    reject_transfer_reply, timestamp_text,
};
use airsend::models::{Device, SendFilesRequest};
use airsend::storage::json_store::{
    AirsendStore, StoreContents, StoreData, TransferDirection, TransferHistoryRecord,
    TransferStatus, STORE_SCHEMA_VERSION,
};
use airsend::text::is_whitespace;

fn history(id: &str) -> TransferHistoryRecord {
    TransferHistoryRecord {
        transfer_id: id.into(),
        peer_id: "peer".into(),
        peer_name: "Peer".into(),
        direction: TransferDirection::Incoming,
        file_count: 1,
        total_bytes: 3,
        status: TransferStatus::Completed,
        created_at: "1".into(),
        completed_at: Some("2".into()),
    }
}

#[test]
fn fresh_store_fingerprints_its_device_id() {
    let data = StoreData::with_identity("device-1".into(), Some("laptop".into()));
    assert_eq!(data.schema_version, STORE_SCHEMA_VERSION);
    assert_eq!(data.device.device_id, "device-1");
    assert_eq!(data.device.display_name, "laptop");
    assert_eq!(data.device.fingerprint, blake3::hash(b"device-1").to_hex().to_string());
    assert!(data.trusted_peers.is_empty());
    assert!(data.transfer_history.is_empty());
    assert!(data.partial_transfers.is_empty());
    assert_eq!(data.settings.parallel_workers, 4);
    assert!(!data.settings.auto_accept);
    assert_eq!(data.settings.save_directory, None);
}

#[test]
fn blank_or_missing_host_name_falls_back() {
    let blank = StoreData::with_identity("x".into(), Some(" \t\u{3000}\n".into()));
    assert_eq!(blank.device.display_name, "Airsend Device");
    let missing = StoreData::with_identity("x".into(), None);
    assert_eq!(missing.device.display_name, "Airsend Device");
    let padded = StoreData::with_identity("x".into(), Some("  box  ".into()));
    assert_eq!(padded.device.display_name, "  box  ");
}

#[test]
fn default_store_has_a_random_device_id() {
    let a = StoreData::default();
    let b = StoreData::default();
    assert_eq!(a.device.device_id.len(), 36);
    assert!(has_v4_layout(&a.device.device_id) && has_v4_layout(&b.device.device_id));
    assert_ne!(a.device.device_id, b.device.device_id);
    assert_eq!(a.device.fingerprint, blake3::hash(a.device.device_id.as_bytes()).to_hex().to_string());
}

#[test]
fn whitespace_matches_the_standard_library() {
    for code in 0u32..0x11_0000 {
        if let Some(c) = char::from_u32(code) {
            assert_eq!(is_whitespace(c), c.is_whitespace(), "{code:#x}");
        }
    }
}

#[test]
fn schema_version_zero_is_read_as_current() {
    let mut old = StoreData::with_identity("x".into(), None);
    old.schema_version = 0;
    assert_eq!(old.normalized().schema_version, STORE_SCHEMA_VERSION);
    let mut newer = StoreData::with_identity("x".into(), None);
    newer.schema_version = 7;
    assert_eq!(newer.normalized().schema_version, 7);
}

#[test]
fn opening_a_store_keeps_parsed_data_and_replaces_missing_or_corrupt() {
    let mut parsed = StoreData::with_identity("kept".into(), None);
    parsed.schema_version = 0;
    let (store, must_save) = AirsendStore::open(PathBuf::from("/tmp/a.json"), StoreContents::Parsed(parsed));
    assert!(!must_save);
    assert_eq!(store.data().device.device_id, "kept");
    assert_eq!(store.data().schema_version, STORE_SCHEMA_VERSION);
    assert_eq!(store.path(), &PathBuf::from("/tmp/a.json"));

    let (fresh, must_save) = AirsendStore::open(PathBuf::from("/tmp/b.json"), StoreContents::Corrupt);
    assert!(must_save);
    assert!(fresh.data().trusted_peers.is_empty());
    let (missing, must_save) = AirsendStore::open(PathBuf::from("/tmp/c.json"), StoreContents::Missing);
    assert!(must_save);
    assert_eq!(missing.data().schema_version, STORE_SCHEMA_VERSION);
}

#[test]
fn trusting_a_fingerprint_twice_keeps_one_entry() {
    let mut store = AirsendStore::new(PathBuf::from("/tmp/t.json"), StoreData::with_identity("me".into(), None));
    assert!(store.data_mut().trust_peer("p1".into(), "Peer".into(), "abc123".into(), "1".into()));
    assert!(!store.data_mut().trust_peer("p2".into(), "Other".into(), "abc123".into(), "2".into()));
    assert!(store.data_mut().trust_peer("p3".into(), "Third".into(), "def".into(), "3".into()));
    let peers = &store.data().trusted_peers;
    assert_eq!(peers.len(), 2);
    assert_eq!(peers[0].device_id, "p1");
    assert_eq!(peers[1].fingerprint, "def");
    assert!(store.data().is_trusted_fingerprint(&"abc123".to_string()));
    assert!(!store.data().is_trusted_fingerprint(&"zzz".to_string()));
}

#[test]
fn settings_changes_go_through_the_store_data() {
    let mut store = AirsendStore::new(PathBuf::from("/tmp/s.json"), StoreData::with_identity("me".into(), None));
    store.data_mut().settings.save_directory = Some("/tmp/airsend-downloads".into());
    store.data_mut().settings.auto_accept = true;
    assert_eq!(store.data().settings.save_directory.as_deref(), Some("/tmp/airsend-downloads"));
    assert!(store.data().settings.auto_accept);
}

#[test]
fn records_are_kept_newest_first() {
    let mut data = StoreData::with_identity("me".into(), None);
    data.record_transfer(history("t1"));
    data.record_transfer(history("t2"));
    assert_eq!(data.transfer_history[0].transfer_id, "t2");
    assert_eq!(data.transfer_history[1].transfer_id, "t1");
}

fn local_device() -> Device {
    Device {
        device_id: "me".into(),
        display_name: "My Laptop".into(),
        fingerprint: "f".into(),
        protocol_version: 1,
        app_version: "0.1.0".into(),
        control_port: None,
        online: true,
        trusted: true,
        last_seen: None,
        addresses: Vec::new(),
    }
}

#[test]
fn queueing_a_transfer_records_it_and_announces_progress() {
    let mut data = StoreData::with_identity("me".into(), None);
    data.record_transfer(history("older"));
    let event = queue_outgoing_transfer(&mut data, "t9".into(), "peer-7".into(), 3, 99, &local_device(), "1700".into())
        .expect("queued");
    assert_eq!(event.transfer_id, "t9");
    assert_eq!(event.status, "Queued by My Laptop");
    assert_eq!(event.total_bytes, 99);
    assert_eq!(event.transferred_bytes, 0);
    assert_eq!(event.bytes_per_second, 0);
    let record = &data.transfer_history[0];
    assert_eq!(record.transfer_id, "t9");
    assert_eq!(record.peer_id, "peer-7");
    assert_eq!(record.peer_name, "Selected peer");
    assert_eq!(record.direction, TransferDirection::Outgoing);
    assert_eq!(record.status, TransferStatus::Queued);
    assert_eq!(record.file_count, 3);
    assert_eq!(record.created_at, "1700");
    assert_eq!(record.completed_at, None);
    assert_eq!(data.transfer_history[1].transfer_id, "older");
}

#[test]
fn queueing_to_this_device_is_refused() {
    let mut data = StoreData::with_identity("me".into(), None);
    let err = queue_outgoing_transfer(&mut data, "t".into(), "me".into(), 1, 1, &local_device(), "0".into())
        .expect_err("self target");
    assert_eq!(err, "Select a nearby peer before queueing a transfer.");
    assert!(data.transfer_history.is_empty());
}

#[test]
fn send_requests_need_paths() {
    let empty = SendFilesRequest { target_device_id: "p".into(), paths: Vec::new() };
    assert_eq!(check_send_paths(&empty), Err("Select at least one file or folder to send.".to_string()));
    let one = SendFilesRequest { target_device_id: "p".into(), paths: vec!["/a".into()] };
    assert_eq!(check_send_paths(&one), Ok(()));
}

#[test]
fn replies_and_timestamps() {
    assert_eq!(accept_transfer_reply("t-1"), "accepted:t-1");
    assert_eq!(reject_transfer_reply("t-1"), "rejected:t-1");
    assert_eq!(timestamp_text(Some(1700000000)), "1700000000");
    assert_eq!(timestamp_text(Some(0)), "0");
    assert_eq!(timestamp_text(None), "0");
    let now = now_timestamp();
    assert!(!now.is_empty() && now.chars().all(|c| c.is_ascii_digit()));
}

fn has_v4_layout(s: &str) -> bool {
    let c: Vec<char> = s.chars().collect();
    c.len() == 36
        && c.iter().enumerate().all(|(i, ch)| {
            if i == 8 || i == 13 || i == 18 || i == 23 {
                *ch == '-'
            } else {
                ch.is_ascii_digit() || ('a'..='f').contains(ch)
            }
        })
        && c[14] == '4'
        && matches!(c[19], '8' | '9' | 'a' | 'b')
}
