use vstd::prelude::*;

use crate::address::PeerAddress;

verus! {

/// An immutable datagram: an opaque payload, with the peer's address when
/// one carrier serves many peers.
#[derive(Clone, Debug, PartialEq, Eq)]
pub struct Packet {
    address: Option<PeerAddress>,
    payload: Vec<u8>,
}

impl Packet {
    /// The peer this packet is addressed to or came from, if it names one.
    pub closed spec fn peer(&self) -> Option<PeerAddress> {
        self.address
    }

    /// The payload bytes.
    pub closed spec fn bytes(&self) -> Seq<u8> {
        self.payload@
    }

    /// A packet for or from `address`.
    pub fn new(address: PeerAddress, payload: Vec<u8>) -> (r: Packet)
        ensures
            r.peer() == Some(address),
            r.bytes() == payload@,
    {
        Packet { address: Some(address), payload }
    }

    /// A packet that names no peer: the carrier's peer is implied.
    pub fn new_raw(payload: Vec<u8>) -> (r: Packet)
        ensures
            r.peer() is None,
            r.bytes() == payload@,
    {
        Packet { address: None, payload }
    }

    pub fn address(&self) -> (r: Option<PeerAddress>)
        ensures
            r == self.peer(),
    {
        self.address
    }

    pub fn payload(&self) -> (r: &[u8])
        ensures
            r@ == self.bytes(),
    {
        self.payload.as_slice()
    }
}

} // verus!
