use airsend::platform::interfaces::{listener_bind_ip, BindTcpListenerError, IpAddr};

#[test]
fn guarded_tcp_listener_refuses_public_bind_ip_before_binding() {
    let err = listener_bind_ip(IpAddr::V4([8, 8, 8, 8])).expect_err("public listener bind should be rejected");

    assert!(err
        .refusal_message()
        .expect("refused before binding")
        .contains("not a private LAN bind target"));
}

#[test]
fn guarded_tcp_listener_refuses_ipv6_link_local_without_scope() {
    let err = listener_bind_ip(IpAddr::V6([0xfe80, 0, 0, 0, 0, 0, 0, 1]))
    .expect_err("unscoped link-local listener bind should be rejected");

    assert!(err
        .refusal_message()
        .expect("refused before binding")
        .contains("requires an interface scope"));
}

#[test]
fn private_ipv4_listener_target_is_accepted() {
    match listener_bind_ip(IpAddr::V4([10, 0, 0, 7])) {
        Ok(ip) => assert_eq!(ip, IpAddr::V4([10, 0, 0, 7])),
        Err(e) => panic!("unexpected refusal: {e:?}"),
    }
    assert!(matches!(
        listener_bind_ip(IpAddr::V4([0, 0, 0, 0])),
        Err(BindTcpListenerError::Guard(_))
    ));
}
