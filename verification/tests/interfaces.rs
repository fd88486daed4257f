use airsend::platform::interfaces::{
    guard_bind_ip, interface_summaries, interface_summary, ip_text, is_allowed_bind_ip,
    is_private_lan_ip, IpAddr,
};

fn v6(segments: [u16; 8]) -> IpAddr {
    IpAddr::V6(segments)
}

#[test]
fn private_ipv4_ranges_are_lan_addresses() {
    assert!(is_private_lan_ip(IpAddr::V4([10, 1, 2, 3])));
    assert!(is_private_lan_ip(IpAddr::V4([172, 16, 0, 9])));
    assert!(is_private_lan_ip(IpAddr::V4([192, 168, 1, 44])));
}

#[test]
fn public_and_loopback_ipv4_are_not_lan_bind_targets() {
    assert!(!is_allowed_bind_ip(IpAddr::V4([8, 8, 8, 8])));
    assert!(!is_allowed_bind_ip(IpAddr::V4([127, 0, 0, 1])));
    assert!(!is_allowed_bind_ip(IpAddr::V4([0, 0, 0, 0])));
}

#[test]
fn guard_bind_ip_returns_an_error_for_public_targets() {
    let err = guard_bind_ip(IpAddr::V4([8, 8, 8, 8])).expect_err("public IP should not be accepted");

    assert!(err.message().contains("not a private LAN bind target"));
}

#[test]
fn ipv6_link_local_is_allowed_but_global_and_loopback_are_rejected() {
    assert!(is_allowed_bind_ip(v6([0xfe80, 0, 0, 0, 0, 0, 0, 1])));
    assert!(!is_allowed_bind_ip(v6([0, 0, 0, 0, 0, 0, 0, 1])));
    assert!(!is_allowed_bind_ip(v6([0x2606, 0x4700, 0x4700, 0, 0, 0, 0, 0x1111])));
}

#[test]
fn private_range_edges() {
    assert!(!is_private_lan_ip(IpAddr::V4([172, 15, 255, 255])));
    assert!(is_private_lan_ip(IpAddr::V4([172, 31, 0, 1])));
    assert!(!is_private_lan_ip(IpAddr::V4([172, 32, 0, 1])));
    assert!(is_private_lan_ip(IpAddr::V4([169, 254, 3, 4])));
    assert!(!is_private_lan_ip(IpAddr::V4([192, 169, 0, 1])));
    assert!(is_private_lan_ip(v6([0xfebf, 0, 0, 0, 0, 0, 0, 1])));
    assert!(!is_private_lan_ip(v6([0xfec0, 0, 0, 0, 0, 0, 0, 1])));
    assert!(!is_private_lan_ip(v6([0xfe7f, 0, 0, 0, 0, 0, 0, 1])));
    assert_eq!(guard_bind_ip(IpAddr::V4([192, 168, 0, 2])), Ok(IpAddr::V4([192, 168, 0, 2])));
}

#[test]
fn ip_text_is_written_as_the_standard_library_writes_it() {
    let cases: [([u16; 8], &str); 14] = [
        ([0, 0, 0, 0, 0, 0, 0, 0], "::"),
        ([0, 0, 0, 0, 0, 0, 0, 1], "::1"),
        ([0xfe80, 0, 0, 0, 0, 0, 0, 1], "fe80::1"),
        ([0x2606, 0x4700, 0x4700, 0, 0, 0, 0, 0x1111], "2606:4700:4700::1111"),
        ([1, 0, 0, 2, 0, 0, 0, 3], "1:0:0:2::3"),
        ([1, 0, 0, 2, 0, 0, 3, 4], "1::2:0:0:3:4"),
        ([0, 0, 1, 0, 0, 0, 0, 0], "0:0:1::"),
        ([1, 0, 0, 0, 0, 0, 0, 0], "1::"),
        ([1, 2, 3, 4, 5, 6, 7, 8], "1:2:3:4:5:6:7:8"),
        ([0, 0, 0, 0, 0, 0xffff, 0xc0a8, 0x0101], "::ffff:192.168.1.1"),
        ([0, 0, 0, 0, 0, 0xffff, 0, 0], "::ffff:0.0.0.0"),
        ([1, 0, 2, 0, 3, 0, 4, 0], "1:0:2:0:3:0:4:0"),
        ([0xabcd, 0xef01, 0, 0, 0, 0, 0, 0], "abcd:ef01::"),
        ([0, 0, 0, 0, 0xffff, 1, 2, 3], "::ffff:1:2:3"),
    ];
    for (segments, expected) in cases {
        assert_eq!(ip_text(IpAddr::V6(segments)), expected);
    }
    assert_eq!(ip_text(IpAddr::V4([0, 0, 0, 0])), "0.0.0.0");
    assert_eq!(ip_text(IpAddr::V4([10, 1, 2, 3])), "10.1.2.3");
    assert_eq!(ip_text(IpAddr::V4([255, 255, 255, 255])), "255.255.255.255");
}

#[test]
fn interface_summaries_mark_bind_targets() {
    let single = interface_summary("en0".into(), IpAddr::V4([192, 168, 1, 5]));
    assert_eq!(single.name, "en0");
    assert_eq!(single.ip, "192.168.1.5");
    assert!(single.allowed_for_bind);

    let list = interface_summaries(vec![
        ("lo".into(), IpAddr::V4([127, 0, 0, 1])),
        ("en0".into(), v6([0xfe80, 0, 0, 0, 0, 0, 0, 2])),
    ]);
    assert_eq!(list.len(), 2);
    assert_eq!(list[0].ip, "127.0.0.1");
    assert!(!list[0].allowed_for_bind);
    assert_eq!(list[1].ip, "fe80::2");
    assert!(list[1].allowed_for_bind);
}
