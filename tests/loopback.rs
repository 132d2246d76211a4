use std::cell::RefCell;
use std::collections::VecDeque;
use std::rc::Rc;

use naia_socket::{
    NaiaClientSocketError, Packet, PacketReceiver, PacketReceiverTrait, PacketSender,
    PacketTransmit, ServerAddr,
};

/// Both ends of an in-memory carrier.
#[derive(Clone)]
struct Loopback {
    wire: Rc<RefCell<VecDeque<Packet>>>,
}

impl PacketTransmit for Loopback {
    fn transmit(&mut self, packet: &Packet) -> Result<(), String> {
        self.wire.borrow_mut().push_back(packet.clone());
        Ok(())
    }

    fn server_addr(&self) -> ServerAddr {
        ServerAddr::Finding
    }
}

impl PacketReceiverTrait for Loopback {
    fn receive(&mut self) -> Result<Option<Packet>, NaiaClientSocketError> {
        Ok(self.wire.borrow_mut().pop_front())
    }

    fn server_addr(&self) -> ServerAddr {
        ServerAddr::Finding
    }
}

#[test]
fn ping_round_trips_unchanged() {
    let wire = Loopback { wire: Rc::new(RefCell::new(VecDeque::new())) };
    let mut sender = PacketSender::new(wire.clone());
    let mut receiver = PacketReceiver::new(wire, None);
    let ping = Packet::new_raw(b"ping".to_vec());
    sender.send(ping.clone());
    let got = receiver.receive().unwrap().unwrap();
    assert_eq!(got.payload(), b"ping");
    assert_eq!(got, ping);
    assert_eq!(receiver.receive().unwrap(), None);
}
