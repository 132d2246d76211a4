use naia_socket::server::Server;
use naia_socket::{IpAddress, Packet, PeerAddress, Timestamp};

#[test]
fn timestamp_is_after_epoch() {
    let t = Timestamp::now();
    assert!(t.seconds() > 1_500_000_000);
    assert!(Timestamp::now().seconds() >= t.seconds());
}

#[test]
fn packet_equality_is_address_and_payload() {
    let a = PeerAddress::new(IpAddress::V4(1, 2, 3, 4), 5);
    let b = PeerAddress::new(IpAddress::V4(1, 2, 3, 4), 6);
    assert_eq!(Packet::new(a, vec![1]), Packet::new(a, vec![1]));
    assert_ne!(Packet::new(a, vec![1]), Packet::new(b, vec![1]));
    assert_ne!(Packet::new(a, vec![1]), Packet::new(a, vec![2]));
    assert_ne!(Packet::new(a, vec![1]), Packet::new_raw(vec![1]));
    assert_eq!(Packet::new(a, vec![9, 8]).payload(), &[9, 8]);
    assert_eq!(Packet::new(a, vec![]).address(), Some(a));
}

#[test]
fn server_outline_accepts_calls() {
    let mut server = Server::new();
    server.update();
    server.connect(PeerAddress::new(IpAddress::V4(127, 0, 0, 1), 12351));
    server.on_connect(|| {});
    server.on_disconnect(|| {});
    server.add_object();
    server.remove_object();
    server.send_message();
    server.receive_message();
}

#[test]
fn server_replies() {
    assert_eq!(Server::greeting(), "hello new client!");
    assert_eq!(Server::echo_reply("hi"), "echo from server: hi");
    assert_eq!(Server::echo_reply(""), "echo from server: ");
}

#[test]
fn clock_reading_before_epoch_is_epoch() {
    assert_eq!(Timestamp::from_clock_reading(Some(1_700_000_000)).seconds(), 1_700_000_000);
    assert_eq!(Timestamp::from_clock_reading(None).seconds(), 0);
}
