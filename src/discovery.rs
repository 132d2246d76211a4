use vstd::prelude::*;

use crate::address::{PeerAddress, ServerAddr};
use crate::error::NaiaClientSocketError;
use crate::packet::Packet;

verus! {

/// Whether a datagram from `source` is accepted in state `state`: always
/// while still finding, afterwards only from the peer found.
pub open spec fn admits_source(state: ServerAddr, source: PeerAddress) -> bool {
    match state {
        ServerAddr::Finding => true,
        ServerAddr::Found(peer) => peer == source,
    }
}

/// The state after a datagram from `source`: the first source is latched,
/// and nothing changes afterwards.
pub open spec fn state_after(state: ServerAddr, source: PeerAddress) -> ServerAddr {
    match state {
        ServerAddr::Finding => ServerAddr::Found(source),
        ServerAddr::Found(_) => state,
    }
}

/// The state after datagrams from `sources`, in order.
pub open spec fn state_after_all(state: ServerAddr, sources: Seq<PeerAddress>) -> ServerAddr
    decreases sources.len(),
{
    if sources.len() == 0 {
        state
    } else {
        state_after(state_after_all(state, sources.drop_last()), sources.last())
    }
}

/// Accepts datagrams on a carrier that serves whoever writes to it: the
/// first sender becomes the peer, and datagrams from anyone else are
/// rejected as errors from then on.
#[derive(Clone, Copy, Debug)]
pub struct PeerDiscovery {
    server_addr: Option<PeerAddress>,
}

impl PeerDiscovery {
    /// The discovery state.
    pub closed spec fn state(&self) -> ServerAddr {
        match self.server_addr {
            None => ServerAddr::Finding,
            Some(peer) => ServerAddr::Found(peer),
        }
    }

    /// No peer found yet.
    pub fn new() -> (r: PeerDiscovery)
        ensures
            r.state() == ServerAddr::Finding,
    {
        PeerDiscovery { server_addr: None }
    }

    /// What is known of the peer's address.
    pub fn server_addr(&self) -> (r: ServerAddr)
        ensures
            r == self.state(),
    {
        match self.server_addr {
            Some(peer) => ServerAddr::Found(peer),
            None => ServerAddr::Finding,
        }
    }

    /// Screens a datagram with `payload` from `source`. An accepted one
    /// becomes a packet with that payload; one from another peer than the one
    /// found is an `UnknownSender` error naming `source`, and is dropped.
    pub fn accept(&mut self, payload: Vec<u8>, source: PeerAddress) -> (r: Result<
        Packet,
        NaiaClientSocketError,
    >)
        ensures
            final(self).state() == state_after(old(self).state(), source),
            admits_source(old(self).state(), source) ==> (r matches Ok(p) && p.bytes() == payload@
                && p.peer() is None),
            !admits_source(old(self).state(), source) ==> r == Err::<Packet, NaiaClientSocketError>(
                NaiaClientSocketError::UnknownSender(source),
            ),
    {
        let peer = match self.server_addr {
            Some(peer) => peer,
            None => {
                self.server_addr = Some(source);
                source
            },
        };
        if peer == source {
            Ok(Packet::new_raw(payload))
        } else {
            Err(NaiaClientSocketError::UnknownSender(source))
        }
    }
}

/// The first datagram's source becomes the peer for good: after any run of
/// datagrams from a finding state the peer is the first source, a datagram is
/// accepted exactly when it comes from that source, and a rejected one leaves
/// the peer unchanged.
pub proof fn lemma_first_sender_is_permanent(sources: Seq<PeerAddress>)
    requires
        sources.len() > 0,
    ensures
        state_after_all(ServerAddr::Finding, sources) == ServerAddr::Found(sources[0]),
        forall|i: int|
            0 < i < sources.len() ==> (admits_source(
                #[trigger] state_after_all(ServerAddr::Finding, sources.take(i)),
                sources[i],
            ) <==> sources[i] == sources[0]),
        forall|i: int|
            0 < i < sources.len() ==> state_after(
                #[trigger] state_after_all(ServerAddr::Finding, sources.take(i)),
                sources[i],
            ) == ServerAddr::Found(sources[0]),
    decreases sources.len(),
{
    if sources.len() == 1 {
        assert(sources.drop_last().len() == 0);
    } else {
        let prefix = sources.drop_last();
        lemma_first_sender_is_permanent(prefix);
        assert(prefix[0] == sources[0]);
        assert forall|i: int| 0 < i < sources.len() implies state_after_all(
            ServerAddr::Finding,
            #[trigger] sources.take(i),
        ) == ServerAddr::Found(sources[0]) by {
            if i < sources.len() - 1 {
                assert(sources.take(i) =~= prefix.take(i));
                assert(prefix.take(i + 1).drop_last() =~= prefix.take(i));
                lemma_first_sender_is_permanent(prefix.take(i));
                assert(prefix.take(i)[0] == sources[0]);
            } else {
                assert(sources.take(i) =~= prefix);
            }
        }
    }
}

} // verus!
