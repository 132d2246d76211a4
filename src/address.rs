use vstd::prelude::*;

verus! {

/// The host part of a peer's address.
#[derive(Clone, Copy, Debug, PartialEq, Eq, Hash, Structural)]
pub enum IpAddress {
    /// An IPv4 address, as its four octets in network order.
    V4(u8, u8, u8, u8),
    /// An IPv6 address, as one 128-bit number in network order.
    V6(u128),
}

/// The address of a remote peer: a host and a port. Two addresses are equal
/// exactly when host and port are equal.
#[derive(Clone, Copy, Debug, PartialEq, Eq, Hash, Structural)]
pub struct PeerAddress {
    pub ip: IpAddress,
    pub port: u16,
}

impl PeerAddress {
    pub fn new(ip: IpAddress, port: u16) -> (r: PeerAddress)
        ensures
            r.ip == ip,
            r.port == port,
    {
        PeerAddress { ip, port }
    }
}

/// What a receiver knows of its peer: still looking for it, or found.
#[derive(Clone, Copy, Debug, PartialEq, Eq, Hash, Structural)]
pub enum ServerAddr {
    /// No packet has been accepted yet.
    Finding,
    /// The peer that the first accepted packet came from.
    Found(PeerAddress),
}

} // verus!
