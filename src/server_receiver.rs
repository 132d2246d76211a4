use vstd::prelude::*;

use crate::error::NaiaServerSocketError;
use crate::link_conditioner::{receive_outcome, LinkConditionerConfig};
use crate::packet::Packet;
use crate::packet_receiver::{conditioned_receive, AnswerSource};
use crate::time_queue::{has_ready, TimeQueue};
use crate::timestamp::millis_since;

verus! {

#[verifier::external_type_specification]
#[verifier::external_body]
#[verifier::reject_recursive_types(T)]
pub struct ExReceiver<T>(crossbeam::channel::Receiver<T>);

#[verifier::external_type_specification]
#[verifier::external_body]
pub struct ExTryRecvError(crossbeam::channel::TryRecvError);

/// Relies on crossbeam's `Receiver::try_recv`: the next message of the
/// channel without blocking, or an error when it is empty or disconnected.
pub assume_specification<T>[ crossbeam::channel::Receiver::<T>::try_recv ](
    receiver: &crossbeam::channel::Receiver<T>,
) -> Result<T, crossbeam::channel::TryRecvError>;

/// The channel that a server socket's carrier fills: packets from clients,
/// or the carrier's errors.
pub type PacketChannel = crossbeam::channel::Receiver<Result<Packet, NaiaServerSocketError>>;

/// What one attempt to take a message from the channel means for a
/// receive: a packet is delivered, a carrier error is passed on as it is,
/// and an empty or closed channel means nothing is available.
pub fn channel_outcome(
    received: Result<Result<Packet, NaiaServerSocketError>, crossbeam::channel::TryRecvError>,
) -> (r: Result<Option<Packet>, NaiaServerSocketError>)
    ensures
        received matches Ok(Ok(p)) ==> r == Ok::<Option<Packet>, NaiaServerSocketError>(Some(p)),
        received matches Ok(Err(e)) ==> r == Err::<Option<Packet>, NaiaServerSocketError>(e),
        received is Err ==> r == Ok::<Option<Packet>, NaiaServerSocketError>(None),
{
    match received {
        Ok(Ok(packet)) => Ok(Some(packet)),
        Ok(Err(err)) => Err(err),
        Err(_) => Ok(None),
    }
}

impl AnswerSource<NaiaServerSocketError> for PacketChannel {
    /// The next message of the channel, as `channel_outcome` reads it.
    fn next_answer(&mut self) -> Result<Option<Packet>, NaiaServerSocketError> {
        channel_outcome(self.try_recv())
    }
}

/// The receiving half of a server socket's carrier. `receive` never blocks.
pub trait PacketReceiverTrait {
    /// Takes the next packet the carrier holds, if any.
    fn receive(&mut self) -> Result<Option<Packet>, NaiaServerSocketError>;
}

/// Receives packets from a server socket.
pub struct PacketReceiver<R> {
    inner: R,
}

impl<R: PacketReceiverTrait> PacketReceiver<R> {
    pub fn new(inner: R) -> (r: Self) {
        PacketReceiver { inner }
    }

    /// Receives the next available packet, if any.
    pub fn receive(&mut self) -> Result<Option<Packet>, NaiaServerSocketError> {
        self.inner.receive()
    }
}

/// Receives straight from the carrier's channel.
pub struct PacketReceiverImpl {
    channel_receiver: PacketChannel,
}

impl PacketReceiverImpl {
    pub fn new(channel_receiver: PacketChannel) -> (r: PacketReceiverImpl) {
        PacketReceiverImpl { channel_receiver }
    }
}

impl PacketReceiverTrait for PacketReceiverImpl {
    fn receive(&mut self) -> Result<Option<Packet>, NaiaServerSocketError> {
        channel_outcome(self.channel_receiver.try_recv())
    }
}

/// Everything a channel gave a receiver, in order.
pub type ServerResults = Seq<Result<Option<Packet>, NaiaServerSocketError>>;

/// Receives from the carrier's channel through the network condition
/// simulator.
pub struct ConditionedPacketReceiverImpl {
    channel_receiver: PacketChannel,
    link_conditioner_config: LinkConditionerConfig,
    time_queue: TimeQueue<Packet>,
    epoch: std::time::Instant,
    received: Ghost<ServerResults>,
}

impl ConditionedPacketReceiverImpl {
    /// The configuration in force.
    pub closed spec fn config(&self) -> LinkConditionerConfig {
        self.link_conditioner_config
    }

    /// The packets scheduled and not yet handed out, in arrival order, each
    /// with its due time.
    pub closed spec fn schedule(&self) -> Seq<(u64, Packet)> {
        self.time_queue@
    }

    /// Every answer the channel gave this receiver, as `channel_outcome`
    /// reads it, in order.
    pub closed spec fn received(&self) -> ServerResults {
        self.received@
    }

    /// Wraps `channel_receiver`; the clock of `receive` starts now.
    pub fn new(
        channel_receiver: PacketChannel,
        link_conditioner_config: &LinkConditionerConfig,
    ) -> (r: Self)
        ensures
            r.config() == *link_conditioner_config,
            r.schedule() == Seq::<(u64, Packet)>::empty(),
            r.received() == Seq::<Result<Option<Packet>, NaiaServerSocketError>>::empty(),
    {
        ConditionedPacketReceiverImpl {
            channel_receiver,
            link_conditioner_config: *link_conditioner_config,
            time_queue: TimeQueue::new(),
            epoch: std::time::Instant::now(),
            received: Ghost(Seq::empty()),
        }
    }

    /// Whether a packet is due at `now`.
    pub fn has_packet(&self, now: u64) -> (r: bool)
        ensures
            r == has_ready(self.schedule(), now),
    {
        self.time_queue.has_item(now)
    }

    /// One receive at `now`, in milliseconds: drains the channel until it is
    /// empty or yields an error, putting each packet in it through the
    /// simulator, then hands out at most one due packet. A carrier error is
    /// returned as it is; what was scheduled stays.
    pub fn receive_at(&mut self, now: u64) -> (r: Result<Option<Packet>, NaiaServerSocketError>)
        ensures
            final(self).config() == old(self).config(),
            old(self).received().len() < final(self).received().len(),
            final(self).received().take(old(self).received().len() as int) == old(self).received(),
            receive_outcome(
                old(self).config(),
                old(self).schedule(),
                final(self).schedule(),
                now,
                final(self).received().skip(old(self).received().len() as int),
                r,
            ),
    {
        conditioned_receive(
            &mut self.channel_receiver,
            &self.link_conditioner_config,
            &mut self.time_queue,
            &mut self.received,
            now,
        )
    }
}

impl PacketReceiverTrait for ConditionedPacketReceiverImpl {
    /// A receive at the time elapsed since the receiver was made.
    fn receive(&mut self) -> Result<Option<Packet>, NaiaServerSocketError> {
        let now = millis_since(&self.epoch);
        self.receive_at(now)
    }
}

} // verus!
