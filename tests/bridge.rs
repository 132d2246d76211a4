use naia_socket::{
    HostBridgeReceiver, IpAddress, NaiaClientSocketError, PacketReceiverTrait, PeerAddress,
    ServerAddr,
};

#[test]
fn bridge_hands_out_messages_before_errors() {
    let peer = ServerAddr::Found(PeerAddress::new(IpAddress::V4(9, 9, 9, 9), 9999));
    let mut bridge = HostBridgeReceiver::new(peer);
    bridge.push_error("lost".to_string());
    bridge.push_message(b"one".to_vec());
    bridge.push_message(b"two".to_vec());
    assert_eq!(bridge.receive().unwrap().unwrap().payload(), b"one");
    assert_eq!(bridge.receive().unwrap().unwrap().payload(), b"two");
    assert_eq!(
        bridge.receive(),
        Err(NaiaClientSocketError::Message("lost".to_string()))
    );
    assert_eq!(bridge.receive(), Ok(None));
    assert_eq!(bridge.server_addr(), peer);
}

#[test]
fn empty_bridge_has_nothing() {
    let mut bridge = HostBridgeReceiver::new(ServerAddr::Finding);
    assert_eq!(bridge.take(), Ok(None));
    assert_eq!(bridge.server_addr(), ServerAddr::Finding);
}
