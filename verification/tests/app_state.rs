use std::path::PathBuf;

use airsend::app_state::AppState;
use airsend::discovery::DiscoveryAnnouncement;
use airsend::models::Device;
use airsend::platform::firewall::{default_firewall_guidance, TargetPlatform};
use airsend::platform::interfaces::{interface_summary, IpAddr};
use airsend::storage::json_store::{AirsendStore, StoreData};

fn peer(id: &str, fingerprint: &str) -> Device {
    Device {
        device_id: id.into(),
        display_name: id.into(),
        fingerprint: fingerprint.into(),
        protocol_version: 1,
        app_version: "0.1.0".into(),
        control_port: None,
        online: true,
        trusted: false,
        last_seen: None,
        addresses: Vec::new(),
    }
}

#[test]
fn snapshot_marks_trusted_peers_and_lists_bind_addresses() {
    let mut data = StoreData::with_identity("me".into(), Some("host".into()));
    data.trust_peer("p1".into(), "P1".into(), "fp-1".into(), "5".into());
    let mut state = AppState::load(AirsendStore::new(PathBuf::from("/tmp/x.json"), data));
    state.peers_mut().apply_announcement(DiscoveryAnnouncement::new(peer("p1", "fp-1"), 1), 1);
    state.peers_mut().apply_announcement(DiscoveryAnnouncement::new(peer("p2", "fp-2"), 2), 1);
    state.peers_mut().apply_announcement(DiscoveryAnnouncement::new(peer("me", "fp-me"), 3), 1);

    let interfaces = vec![
        interface_summary("lo".into(), IpAddr::V4([127, 0, 0, 1])),
        interface_summary("en0".into(), IpAddr::V4([192, 168, 1, 9])),
    ];
    let snapshot = state.snapshot(interfaces, TargetPlatform::Linux, "0.1.0".into());

    assert_eq!(snapshot.local_device.device_id, "me");
    assert_eq!(snapshot.local_device.display_name, "host");
    assert_eq!(snapshot.local_device.addresses, vec!["192.168.1.9".to_string()]);
    assert!(snapshot.local_device.online && snapshot.local_device.trusted);
    assert_eq!(snapshot.local_device.app_version, "0.1.0");
    assert_eq!(snapshot.devices.len(), 2);
    assert!(snapshot.devices[0].trusted);
    assert!(!snapshot.devices[1].trusted);
    assert_eq!(snapshot.interfaces.len(), 2);
    assert_eq!(snapshot.settings.parallel_workers, 4);
    assert_eq!(
        snapshot.firewall_guidance.platform_hint,
        "If peers cannot connect, check that your local firewall allows Airsend on private LAN interfaces."
    );

    let listed = state.list_devices();
    assert_eq!(listed.len(), 2);
    assert!(!listed[0].trusted);
}

#[test]
fn firewall_guidance_depends_on_the_platform() {
    let mac = default_firewall_guidance(TargetPlatform::MacOs);
    assert_eq!(mac.title, "Local network access needed");
    assert!(mac.platform_hint.starts_with("macOS"));
    let windows = default_firewall_guidance(TargetPlatform::Windows);
    assert!(windows.platform_hint.starts_with("Windows Defender"));
    assert_eq!(
        default_firewall_guidance(TargetPlatform::Other).platform_hint,
        default_firewall_guidance(TargetPlatform::Linux).platform_hint
    );
}
