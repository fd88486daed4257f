use airsend::discovery::{
    prune_expired_peers, DiscoveryAnnouncement, DiscoveryError, DiscoveryPeer, PeerTable,
    PROTOCOL_VERSION, SERVICE_NAME,
};
use airsend::models::Device;

fn device(id: &str) -> Device {
    Device {
        device_id: id.into(),
        display_name: format!("Device {id}"),
        fingerprint: format!("fingerprint-{id}"),
        protocol_version: PROTOCOL_VERSION,
        app_version: "0.1.0".into(),
        control_port: Some(49152),
        online: true,
        trusted: false,
        last_seen: None,
        addresses: vec!["192.168.1.20".into()],
    }
}

#[test]
fn peer_table_ignores_own_announcement_and_tracks_remote_peer() {
    let mut table = PeerTable::new("local-device".into());
    table.apply_announcement(
        DiscoveryAnnouncement::new(device("local-device"), 49152),
        10,
    );
    table.apply_announcement(DiscoveryAnnouncement::new(device("peer-1"), 49153), 11);

    let peers = table.peers();

    assert_eq!(peers.len(), 1);
    assert_eq!(peers[0].device.device_id, "peer-1");
    assert_eq!(peers[0].last_seen_epoch_seconds, 11);
}

#[test]
fn prune_expired_peers_marks_stale_devices_offline() {
    let mut peers = vec![DiscoveryPeer {
        device: device("peer-1"),
        last_seen_epoch_seconds: 10,
    }];

    prune_expired_peers(&mut peers, 45, 30);

    assert!(!peers[0].device.online);
}

#[test]
fn new_announcement_carries_service_version_and_port() {
    let announcement = DiscoveryAnnouncement::new(device("peer-1"), 40000);
    assert_eq!(announcement.service_name, SERVICE_NAME);
    assert_eq!(announcement.protocol_version, 1);
    assert_eq!(announcement.control_port, 40000);
    assert_eq!(announcement.device.control_port, Some(40000));
    let validated = announcement.validate().expect("a fresh announcement is valid");
    assert_eq!(validated.device.device_id, "peer-1");
}

#[test]
fn validate_refuses_other_services_then_other_versions() {
    let mut wrong_service = DiscoveryAnnouncement::new(device("peer-1"), 1);
    wrong_service.service_name = "_other._tcp.local.".into();
    wrong_service.protocol_version = 9;
    match wrong_service.validate() {
        Err(DiscoveryError::WrongService(name)) => assert_eq!(name, "_other._tcp.local."),
        other => panic!("unexpected: {other:?}"),
    }

    let mut wrong_version = DiscoveryAnnouncement::new(device("peer-1"), 1);
    wrong_version.protocol_version = 2;
    match wrong_version.validate() {
        Err(DiscoveryError::UnsupportedProtocol(v)) => assert_eq!(v, 2),
        other => panic!("unexpected: {other:?}"),
    }
}

#[test]
fn known_peer_is_replaced_in_place_and_marked_online() {
    let mut table = PeerTable::new("me".into());
    table.apply_announcement(DiscoveryAnnouncement::new(device("a"), 1), 5);
    table.apply_announcement(DiscoveryAnnouncement::new(device("b"), 2), 6);
    let mut again = device("a");
    again.online = false;
    again.display_name = "Renamed".into();
    table.apply_announcement(DiscoveryAnnouncement::new(again, 3), 7);

    let peers = table.peers();
    assert_eq!(peers.len(), 2);
    assert_eq!(peers[0].device.device_id, "a");
    assert_eq!(peers[0].device.display_name, "Renamed");
    assert!(peers[0].device.online);
    assert_eq!(peers[0].device.control_port, Some(3));
    assert_eq!(peers[0].last_seen_epoch_seconds, 7);
    assert_eq!(peers[1].device.device_id, "b");
    assert_eq!(peers[1].last_seen_epoch_seconds, 6);
}

#[test]
fn a_new_peer_announcing_itself_offline_is_stored_offline_then_online() {
    let mut table = PeerTable::new("me".into());
    let mut offline = device("a");
    offline.online = false;
    table.apply_announcement(DiscoveryAnnouncement::new(offline, 1), 5);
    assert!(!table.peers()[0].device.online);

    let mut offline = device("a");
    offline.online = false;
    table.apply_announcement(DiscoveryAnnouncement::new(offline, 1), 5);
    assert!(table.peers()[0].device.online);
}

#[test]
fn pruning_keeps_fresh_peers_and_never_removes() {
    let mut table = PeerTable::new("me".into());
    table.apply_announcement(DiscoveryAnnouncement::new(device("old"), 1), 10);
    table.apply_announcement(DiscoveryAnnouncement::new(device("new"), 1), 40);
    table.prune_expired(45, 30);
    let peers = table.peers();
    assert_eq!(peers.len(), 2);
    assert!(!peers[0].device.online);
    assert!(peers[1].device.online);

    // exactly at the time to live the peer is still online
    let mut edge = vec![DiscoveryPeer { device: device("x"), last_seen_epoch_seconds: 15 }];
    prune_expired_peers(&mut edge, 45, 30);
    assert!(edge[0].device.online);

    // a last-seen time in the future counts as just seen
    let mut future = vec![DiscoveryPeer { device: device("y"), last_seen_epoch_seconds: 100 }];
    prune_expired_peers(&mut future, 45, 0);
    assert!(future[0].device.online);
}

#[test]
fn default_table_is_empty() {
    let table = PeerTable::default();
    assert!(table.peers().is_empty());
}
