use vstd::prelude::*;

use std::collections::VecDeque;

use crate::address::ServerAddr;
use crate::error::NaiaClientSocketError;
use crate::packet::Packet;
use crate::packet_receiver::PacketReceiverTrait;

verus! {

/// The receiving end of a host-provided message bridge: the host pushes
/// incoming messages and error reports, and a receive hands out messages
/// first, oldest first, then error reports, oldest first.
pub struct HostBridgeReceiver {
    message_queue: VecDeque<Vec<u8>>,
    error_queue: VecDeque<String>,
    server_addr: ServerAddr,
}

impl HostBridgeReceiver {
    /// The messages waiting, oldest first, as byte strings.
    pub closed spec fn messages(&self) -> Seq<Seq<u8>> {
        self.message_queue@.map_values(|m: Vec<u8>| m@)
    }

    /// The peer address the host reported.
    pub closed spec fn peer_state(&self) -> ServerAddr {
        self.server_addr
    }

    /// The error reports waiting, oldest first.
    pub closed spec fn errors(&self) -> Seq<String> {
        self.error_queue@
    }

    /// An empty bridge towards the peer at `server_addr`.
    pub fn new(server_addr: ServerAddr) -> (r: HostBridgeReceiver)
        ensures
            r.messages().len() == 0,
            r.errors().len() == 0,
            r.peer_state() == server_addr,
    {
        HostBridgeReceiver {
            message_queue: VecDeque::new(),
            error_queue: VecDeque::new(),
            server_addr,
        }
    }

    /// The host delivers a message.
    pub fn push_message(&mut self, message: Vec<u8>)
        ensures
            final(self).messages() == old(self).messages().push(message@),
            final(self).errors() == old(self).errors(),
            final(self).peer_state() == old(self).peer_state(),
    {
        self.message_queue.push_back(message);
        assert(self.messages() =~= old(self).messages().push(message@));
    }

    /// The host reports an error.
    pub fn push_error(&mut self, error: String)
        ensures
            final(self).messages() == old(self).messages(),
            final(self).errors() == old(self).errors().push(error),
            final(self).peer_state() == old(self).peer_state(),
    {
        self.error_queue.push_back(error);
    }

    /// Takes the oldest message; when there is none, the oldest error
    /// report as an error; when there is neither, nothing.
    pub fn take(&mut self) -> (r: Result<Option<Packet>, NaiaClientSocketError>)
        ensures
            final(self).peer_state() == old(self).peer_state(),
            old(self).messages().len() > 0 ==> {
                &&& r matches Ok(Some(p)) && p.bytes() == old(self).messages()[0] && p.peer() is None
                &&& final(self).messages() == old(self).messages().drop_first()
                &&& final(self).errors() == old(self).errors()
            },
            old(self).messages().len() == 0 && old(self).errors().len() > 0 ==> {
                &&& r == Err::<Option<Packet>, NaiaClientSocketError>(
                    NaiaClientSocketError::Message(old(self).errors()[0]),
                )
                &&& final(self).messages() == old(self).messages()
                &&& final(self).errors() == old(self).errors().drop_first()
            },
            old(self).messages().len() == 0 && old(self).errors().len() == 0 ==> {
                &&& r == Ok::<Option<Packet>, NaiaClientSocketError>(None)
                &&& final(self).messages() == old(self).messages()
                &&& final(self).errors() == old(self).errors()
            },
    {
        if let Some(message) = self.message_queue.pop_front() {
            assert(self.messages() =~= old(self).messages().drop_first());
            return Ok(Some(Packet::new_raw(message)));
        }
        if let Some(error) = self.error_queue.pop_front() {
            return Err(NaiaClientSocketError::Message(error));
        }
        Ok(None)
    }
}

impl PacketReceiverTrait for HostBridgeReceiver {
    fn receive(&mut self) -> Result<Option<Packet>, NaiaClientSocketError> {
        self.take()
    }

    fn server_addr(&self) -> ServerAddr {
        self.server_addr
    }
}

} // verus!
