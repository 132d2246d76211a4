use naia_socket::{candidate_to_addr, IpAddress, PeerAddress, ServerAddr};

#[test]
fn candidate_to_addr_works() {
    assert_eq!(
        candidate_to_addr("candidate:1 1 UDP 1755993416 127.0.0.1 14192 typ host"),
        ServerAddr::Found(PeerAddress::new(IpAddress::V4(127, 0, 0, 1), 14192))
    );
}

#[test]
fn candidate_with_other_address() {
    assert_eq!(
        candidate_to_addr("candidate:842163049 1 udp 1677729535 203.0.113.7 50000 typ srflx"),
        ServerAddr::Found(PeerAddress::new(IpAddress::V4(203, 0, 113, 7), 50000))
    );
}

#[test]
fn candidate_too_short_is_finding() {
    assert_eq!(candidate_to_addr("candidate:1 1 UDP 1755993416"), ServerAddr::Finding);
    assert_eq!(candidate_to_addr(""), ServerAddr::Finding);
}

#[test]
fn candidate_bad_octet_is_finding() {
    assert_eq!(
        candidate_to_addr("candidate:1 1 UDP 1 127.0.0.256 14192 typ host"),
        ServerAddr::Finding
    );
    assert_eq!(
        candidate_to_addr("candidate:1 1 UDP 1 127.0.1 14192 typ host"),
        ServerAddr::Finding
    );
    assert_eq!(
        candidate_to_addr("candidate:1 1 UDP 1 127.0.0.x 14192 typ host"),
        ServerAddr::Finding
    );
}

#[test]
fn candidate_bad_port_is_finding() {
    assert_eq!(
        candidate_to_addr("candidate:1 1 UDP 1 127.0.0.1 65536 typ host"),
        ServerAddr::Finding
    );
    assert_eq!(
        candidate_to_addr("candidate:1 1 UDP 1 127.0.0.1 port typ host"),
        ServerAddr::Finding
    );
}

#[test]
fn candidate_largest_port() {
    assert_eq!(
        candidate_to_addr("candidate:1 1 UDP 1 10.0.0.1 65535"),
        ServerAddr::Found(PeerAddress::new(IpAddress::V4(10, 0, 0, 1), 65535))
    );
}

#[test]
fn ipv6_candidate_is_read() {
    assert_eq!(
        candidate_to_addr("candidate:1 1 UDP 1 ::1 5000 typ host"),
        ServerAddr::Found(PeerAddress::new(IpAddress::V6(1), 5000))
    );
    assert_eq!(
        candidate_to_addr("candidate:1 1 UDP 1 2001:db8::7 14192 typ host"),
        ServerAddr::Found(PeerAddress::new(IpAddress::V6(0x2001_0db8_0000_0000_0000_0000_0000_0007), 14192))
    );
    assert_eq!(
        candidate_to_addr("candidate:1 1 udp 1 fe80:0:0:0:204:61ff:FE9D:f156 9 typ host"),
        ServerAddr::Found(PeerAddress::new(IpAddress::V6(0xfe80_0000_0000_0000_0204_61ff_fe9d_f156), 9))
    );
    assert_eq!(
        candidate_to_addr("candidate:1 1 UDP 1 :: 7 typ host"),
        ServerAddr::Found(PeerAddress::new(IpAddress::V6(0), 7))
    );
    assert_eq!(
        candidate_to_addr("candidate:1 1 UDP 1 1:: 7 typ host"),
        ServerAddr::Found(PeerAddress::new(IpAddress::V6(1u128 << 112), 7))
    );
}

#[test]
fn malformed_ipv6_candidate_is_finding() {
    for bad in [
        "1::2::3",
        ":1:2:3:4:5:6:7",
        "1:2:3:4:5:6:7",
        "1:2:3:4:5:6:7:8:9",
        "1:2:3:4::5:6:7:8",
        "12345::1",
        "g::1",
        "example.org",
    ] {
        let line = format!("candidate:1 1 UDP 1 {} 5000 typ host", bad);
        assert_eq!(candidate_to_addr(&line), ServerAddr::Finding, "{}", bad);
    }
}
