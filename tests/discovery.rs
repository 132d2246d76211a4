use naia_socket::{IpAddress, NaiaClientSocketError, PeerAddress, PeerDiscovery, ServerAddr};

fn addr(last: u8, port: u16) -> PeerAddress {
    PeerAddress::new(IpAddress::V4(192, 168, 0, last), port)
}

#[test]
fn first_sender_becomes_peer() {
    let mut discovery = PeerDiscovery::new();
    assert_eq!(discovery.server_addr(), ServerAddr::Finding);
    let packet = discovery.accept(b"hello".to_vec(), addr(1, 4000)).unwrap();
    assert_eq!(packet.payload(), b"hello");
    assert_eq!(packet.address(), None);
    assert_eq!(discovery.server_addr(), ServerAddr::Found(addr(1, 4000)));
}

#[test]
fn impostor_is_rejected_and_peer_kept() {
    let mut discovery = PeerDiscovery::new();
    discovery.accept(b"a".to_vec(), addr(1, 4000)).unwrap();
    assert_eq!(
        discovery.accept(b"b".to_vec(), addr(2, 4000)),
        Err(NaiaClientSocketError::UnknownSender(addr(2, 4000)))
    );
    assert_eq!(
        discovery.accept(b"c".to_vec(), addr(1, 4001)),
        Err(NaiaClientSocketError::UnknownSender(addr(1, 4001)))
    );
    assert_eq!(discovery.server_addr(), ServerAddr::Found(addr(1, 4000)));
    let again = discovery.accept(b"d".to_vec(), addr(1, 4000)).unwrap();
    assert_eq!(again.payload(), b"d");
}

#[test]
fn ipv6_peer_is_exact() {
    let mut discovery = PeerDiscovery::new();
    let v6 = PeerAddress::new(IpAddress::V6(1), 9);
    discovery.accept(Vec::new(), v6).unwrap();
    assert!(discovery.accept(Vec::new(), PeerAddress::new(IpAddress::V6(2), 9)).is_err());
    assert_eq!(discovery.server_addr(), ServerAddr::Found(v6));
}
