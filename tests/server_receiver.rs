use crossbeam::channel::{unbounded, TryRecvError};

use naia_socket::server_receiver::{
    channel_outcome, ConditionedPacketReceiverImpl, PacketReceiver, PacketReceiverImpl,
    PacketReceiverTrait,
};
use naia_socket::{IpAddress, LinkConditionerConfig, NaiaServerSocketError, Packet, PeerAddress};

fn client(port: u16) -> PeerAddress {
    PeerAddress::new(IpAddress::V4(10, 0, 0, 2), port)
}

#[test]
fn channel_outcome_maps_each_case() {
    let p = Packet::new(client(1), vec![1, 2]);
    assert_eq!(channel_outcome(Ok(Ok(p.clone()))), Ok(Some(p)));
    assert_eq!(
        channel_outcome(Ok(Err(NaiaServerSocketError::SendError(client(3))))),
        Err(NaiaServerSocketError::SendError(client(3)))
    );
    assert_eq!(channel_outcome(Err(TryRecvError::Empty)), Ok(None));
    assert_eq!(channel_outcome(Err(TryRecvError::Disconnected)), Ok(None));
}

#[test]
fn plain_receiver_reads_channel() {
    let (tx, rx) = unbounded();
    let mut receiver = PacketReceiver::new(PacketReceiverImpl::new(rx));
    assert_eq!(receiver.receive(), Ok(None));
    let p = Packet::new(client(7), b"hi".to_vec());
    tx.send(Ok(p.clone())).unwrap();
    assert_eq!(receiver.receive(), Ok(Some(p)));
    assert_eq!(receiver.receive(), Ok(None));
}

#[test]
fn conditioned_server_receiver_delays() {
    let (tx, rx) = unbounded();
    let config = LinkConditionerConfig::new(100, 0, 0);
    let mut receiver = ConditionedPacketReceiverImpl::new(rx, &config);
    let p = Packet::new(client(8), b"A".to_vec());
    tx.send(Ok(p.clone())).unwrap();
    assert_eq!(receiver.receive_at(0), Ok(None));
    assert_eq!(receiver.receive_at(50), Ok(None));
    assert!(receiver.has_packet(100));
    assert_eq!(receiver.receive_at(100), Ok(Some(p)));
    assert_eq!(receiver.receive_at(100), Ok(None));
}

#[test]
fn conditioned_server_receiver_passes_errors() {
    let (tx, rx) = unbounded();
    let config = LinkConditionerConfig::new(0, 0, 0);
    let mut receiver = ConditionedPacketReceiverImpl::new(rx, &config);
    tx.send(Err(NaiaServerSocketError::Wrapped("down".to_string()))).unwrap();
    assert_eq!(
        receiver.receive(),
        Err(NaiaServerSocketError::Wrapped("down".to_string()))
    );
}
