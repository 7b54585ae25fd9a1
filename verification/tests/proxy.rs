use den::error::DenError;
use den::proxy::{is_safe_proxy_target, proxy_uri};

#[test]
fn allows_docker_bridge_ips() {
    assert!(is_safe_proxy_target("172.17.0.2"));
    assert!(is_safe_proxy_target("172.18.0.5"));
    assert!(is_safe_proxy_target("172.31.255.255"));
    assert!(is_safe_proxy_target("192.168.1.100"));
}

#[test]
fn blocks_loopback() {
    assert!(!is_safe_proxy_target("127.0.0.1"));
    assert!(!is_safe_proxy_target("127.0.0.2"));
}

#[test]
fn blocks_link_local_metadata() {
    assert!(!is_safe_proxy_target("169.254.169.254")); // cloud metadata
    assert!(!is_safe_proxy_target("169.254.1.1"));
}

#[test]
fn blocks_public_ips() {
    assert!(!is_safe_proxy_target("8.8.8.8"));
    assert!(!is_safe_proxy_target("10.0.0.1"));
    assert!(!is_safe_proxy_target("1.1.1.1"));
}

#[test]
fn blocks_ipv6() {
    assert!(!is_safe_proxy_target("::1"));
    assert!(!is_safe_proxy_target("fe80::1"));
}

#[test]
fn blocks_invalid_input() {
    assert!(!is_safe_proxy_target("not-an-ip"));
    assert!(!is_safe_proxy_target(""));
}

#[test]
fn blocks_outside_docker_range() {
    assert!(!is_safe_proxy_target("172.15.0.1")); // below 172.16
    assert!(!is_safe_proxy_target("172.32.0.1")); // above 172.31
    assert!(!is_safe_proxy_target("192.167.1.1")); // not 192.168
}

#[test]
fn only_the_exact_dotted_form_is_an_address() {
    for ip in [
        "172.17.0.02",
        "172.17.0",
        "172.17.0.2.1",
        "172.17.0.256",
        " 172.17.0.2",
        "172.17.0.2 ",
        "172.17..2",
        "172.17.0.2:80",
        "0172.17.0.2",
        "::ffff:172.17.0.2",
    ] {
        assert!(!is_safe_proxy_target(ip), "{ip}");
    }
    assert!(is_safe_proxy_target("172.16.0.0"));
    assert!(is_safe_proxy_target("192.168.255.0"));
}

#[test]
fn uri_of_an_allowed_target() {
    assert_eq!(
        proxy_uri("172.17.0.2", 8080, "api/x?y=1").unwrap(),
        "http://172.17.0.2:8080/api/x?y=1"
    );
    assert_eq!(proxy_uri("192.168.0.9", 0, "").unwrap(), "http://192.168.0.9:0/");
}

#[test]
fn a_target_out_of_range_is_refused() {
    let e = proxy_uri("169.254.169.254", 80, "latest").unwrap_err();
    assert_eq!(
        e.message(),
        "proxy: container IP 169.254.169.254 is not in an allowed range"
    );
    assert_eq!(e.status(), 500);
    assert!(matches!(e, DenError::Proxy(_)));
}
