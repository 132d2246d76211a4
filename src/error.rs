use vstd::prelude::*;

use crate::address::PeerAddress;

verus! {

/// What a client-side receive can fail with.
#[derive(Clone, Debug, PartialEq, Eq)]
pub enum NaiaClientSocketError {
    /// An error message handed over by the carrier.
    Message(String),
    /// A fatal failure of the carrier's own handle, described in words.
    Wrapped(String),
    /// A datagram came from a peer other than the one already found.
    UnknownSender(PeerAddress),
}

/// What a server-side socket operation can fail with.
#[derive(Clone, Debug, PartialEq, Eq)]
pub enum NaiaServerSocketError {
    /// A failure of the underlying carrier, described in words.
    Wrapped(String),
    /// A packet could not be sent to the given address.
    SendError(PeerAddress),
}

} // verus!
