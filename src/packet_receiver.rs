use vstd::prelude::*;

use crate::address::ServerAddr;
use crate::error::NaiaClientSocketError;
use crate::link_conditioner::{
    absorb, arrivals_absorbed, arrivals_of, kept, lemma_absorb_arrival, lemma_arrivals_of_push,
    receive_outcome, LinkConditionerConfig,
};
use crate::packet::Packet;
use crate::time_queue::{has_ready, TimeQueue};
use crate::timestamp::millis_since;

verus! {

/// The receiving half of a carrier. `receive` never blocks: when nothing is
/// available it returns `Ok(None)`.
pub trait PacketReceiverTrait {
    /// Takes the next packet the carrier holds, if any.
    fn receive(&mut self) -> Result<Option<Packet>, NaiaClientSocketError>;

    /// What the carrier knows of its peer's address.
    fn server_addr(&self) -> ServerAddr;
}

/// The most items one receive call takes from the carrier before it turns to
/// the schedule.
pub const DRAIN_LIMIT: u64 = 0xFFFF_FFFF_FFFF_FFFF;

/// Where a conditioned receive takes its answers from: the receiving half
/// of a carrier, with `E` its error.
pub trait AnswerSource<E> {
    /// The carrier's next answer: a packet, nothing available, or an error.
    fn next_answer(&mut self) -> Result<Option<Packet>, E>;
}

impl<R: PacketReceiverTrait> AnswerSource<NaiaClientSocketError> for R {
    fn next_answer(&mut self) -> Result<Option<Packet>, NaiaClientSocketError> {
        self.receive()
    }
}

/// One receive at `now`, in milliseconds, through the simulator: drains
/// `source` until it has nothing more or fails, handing each answer to
/// `absorb` and recording it in `received`, then hands out at most one due
/// item. A carrier error is returned as it is; what was scheduled stays.
pub fn conditioned_receive<E, S: AnswerSource<E>>(
    source: &mut S,
    config: &LinkConditionerConfig,
    time_queue: &mut TimeQueue<Packet>,
    received: &mut Ghost<Seq<Result<Option<Packet>, E>>>,
    now: u64,
) -> (r: Result<Option<Packet>, E>)
    ensures
        old(received)@.len() < final(received)@.len(),
        final(received)@.take(old(received)@.len() as int) == old(received)@,
        receive_outcome(
            *config,
            old(time_queue)@,
            final(time_queue)@,
            now,
            final(received)@.skip(old(received)@.len() as int),
            r,
        ),
    {
        let ghost config_value = *config;
        let ghost before = time_queue@;
        let ghost log0 = received@;
        let ghost mut keep: Seq<bool> = Seq::empty();
        let mut budget: u64 = DRAIN_LIMIT;
        proof {
            assert(before.take(before.len() as int) =~= before);
            assert(before.skip(before.len() as int) =~= Seq::<(u64, Packet)>::empty());
            assert(received@.skip(log0.len() as int) =~= Seq::<
                Result<Option<Packet>, E>,
            >::empty());
            assert(received@.take(log0.len() as int) =~= log0);
            assert(arrivals_of(received@.skip(log0.len() as int)) =~= Seq::<Packet>::empty());
            assert(kept(Seq::<Packet>::empty(), keep) =~= Seq::<Packet>::empty());
            assert(before.skip(before.len() as int).map_values(|e: (u64, Packet)| e.1) =~= Seq::<
                Packet,
            >::empty());
        }
        while budget > 0
            invariant
                config_value == *config,
                before == old(time_queue)@,
                log0 == old(received)@,
                received@.len() == log0.len() + (DRAIN_LIMIT - budget),
                received@.take(log0.len() as int) == log0,
                forall|i: int|
                    log0.len() <= i < received@.len() ==> (#[trigger] received@[i] matches Ok(Some(_))),
                arrivals_absorbed(
                    config_value,
                    before,
                    time_queue@,
                    now,
                    arrivals_of(received@.skip(log0.len() as int)),
                    keep,
                ),
            decreases budget,
        {
            let answer = source.next_answer();
            let ghost got = answer;
            let ghost mid = time_queue@;
            let ghost results = received@.skip(log0.len() as int);
            *received = Ghost(received@.push(got));
            proof {
                assert(received@.skip(log0.len() as int) =~= results.push(got));
                assert(received@.take(log0.len() as int) =~= log0);
                lemma_arrivals_of_push(results, got);
                assert forall|i: int| 0 <= i < results.push(got).len() - 1 implies (
                #[trigger] results.push(got)[i] matches Ok(Some(_))) by {
                    assert(results[i] == received@[log0.len() + i]);
                }
            }
            match absorb(config, time_queue, now, answer) {
                Some(r) => {
                    proof {
                        assert(arrivals_absorbed(
                            config_value,
                            before,
                            mid,
                            now,
                            arrivals_of(results.push(got)),
                            keep,
                        ));
                    }
                    return r;
                },
                None => {
                    proof {
                        lemma_absorb_arrival(
                            config_value,
                            before,
                            mid,
                            time_queue@,
                            now,
                            arrivals_of(results),
                            keep,
                            got->Ok_0->Some_0,
                        );
                        keep = keep.push(time_queue@.len() > mid.len());
                    }
                },
            }
            budget = budget - 1;
        }
        let ghost mid = time_queue@;
        let ghost results = received@.skip(log0.len() as int);
        proof {
            assert(results.len() == DRAIN_LIMIT);
            assert(results.last() == received@[received@.len() - 1]);
            assert forall|i: int| 0 <= i < results.len() - 1 implies (#[trigger] results[i] matches Ok(
                Some(_),
            )) by {
                assert(results[i] == received@[log0.len() + i]);
            }
        }
        let popped = time_queue.pop_item(now);
        Ok(popped)
    }

/// Everything a carrier returned to a receiver, in order.
pub type ClientResults = Seq<Result<Option<Packet>, NaiaClientSocketError>>;

/// Receives through a network condition simulator: every item the inner
/// carrier delivers is dropped or delayed as the configuration says, and
/// items are handed out once they are due, earliest first.
#[derive(Clone)]
pub struct ConditionedPacketReceiver<R> {
    inner_receiver: R,
    link_conditioner_config: LinkConditionerConfig,
    time_queue: TimeQueue<Packet>,
    epoch: std::time::Instant,
    received: Ghost<ClientResults>,
}

impl<R: PacketReceiverTrait> ConditionedPacketReceiver<R> {
    /// The configuration in force.
    pub closed spec fn config(&self) -> LinkConditionerConfig {
        self.link_conditioner_config
    }

    /// The items scheduled and not yet handed out, in arrival order, each
    /// with its due time.
    pub closed spec fn schedule(&self) -> Seq<(u64, Packet)> {
        self.time_queue@
    }

    /// The carrier underneath.
    pub closed spec fn inner(&self) -> R {
        self.inner_receiver
    }

    /// Every answer the inner carrier gave this receiver, in order.
    pub closed spec fn received(&self) -> ClientResults {
        self.received@
    }

    /// Wraps `inner_receiver`; the clock of `receive` starts now.
    pub fn new(inner_receiver: R, link_conditioner_config: &LinkConditionerConfig) -> (r: Self)
        ensures
            r.config() == *link_conditioner_config,
            r.inner() == inner_receiver,
            r.schedule() == Seq::<(u64, Packet)>::empty(),
            r.received() == Seq::<Result<Option<Packet>, NaiaClientSocketError>>::empty(),
    {
        ConditionedPacketReceiver {
            inner_receiver,
            link_conditioner_config: *link_conditioner_config,
            time_queue: TimeQueue::new(),
            epoch: std::time::Instant::now(),
            received: Ghost(Seq::empty()),
        }
    }

    /// Whether an item is due at `now`.
    pub fn has_packet(&self, now: u64) -> (r: bool)
        ensures
            r == has_ready(self.schedule(), now),
    {
        self.time_queue.has_item(now)
    }

    /// A receive at the time elapsed since the receiver was made.
    pub fn receive_now(&mut self) -> (r: Result<Option<Packet>, NaiaClientSocketError>)
        ensures
            final(self).config() == old(self).config(),
            old(self).received().len() < final(self).received().len(),
            final(self).received().take(old(self).received().len() as int) == old(self).received(),
            exists|now: u64|
                receive_outcome(
                    old(self).config(),
                    old(self).schedule(),
                    final(self).schedule(),
                    now,
                    final(self).received().skip(old(self).received().len() as int),
                    r,
                ),
    {
        let now = millis_since(&self.epoch);
        self.receive_at(now)
    }

    /// One receive at `now`, in milliseconds: drains the inner carrier until
    /// it has nothing more or fails, putting each packet it delivers through
    /// the simulator, then hands out at most one due item. A carrier error is
    /// returned as it is; what was scheduled stays.
    pub fn receive_at(&mut self, now: u64) -> (r: Result<Option<Packet>, NaiaClientSocketError>)
        ensures
            final(self).config() == old(self).config(),
            old(self).received().len() < final(self).received().len(),
            final(self).received().take(old(self).received().len() as int) == old(self).received(),
            receive_outcome(
                old(self).config(),
                old(self).schedule(),
                final(self).schedule(),
                now,
                final(self).received().skip(old(self).received().len() as int),
                r,
            ),
    {
        conditioned_receive(
            &mut self.inner_receiver,
            &self.link_conditioner_config,
            &mut self.time_queue,
            &mut self.received,
            now,
        )
    }
}

impl<R: PacketReceiverTrait> PacketReceiverTrait for ConditionedPacketReceiver<R> {
    /// A receive at the time elapsed since the receiver was made.
    fn receive(&mut self) -> Result<Option<Packet>, NaiaClientSocketError> {
        self.receive_now()
    }

    /// The inner carrier's answer: the simulator never affects discovery.
    fn server_addr(&self) -> ServerAddr {
        self.inner_receiver.server_addr()
    }
}

/// The receiving path of a socket: straight from the carrier, or through the
/// condition simulator when a configuration is given.
#[derive(Clone)]
enum ReceiverPath<R> {
    Direct(R, Ghost<ClientResults>),
    Conditioned(ConditionedPacketReceiver<R>),
}

/// Receives packets from a socket's carrier.
#[derive(Clone)]
pub struct PacketReceiver<R> {
    inner: ReceiverPath<R>,
}

impl<R: PacketReceiverTrait> PacketReceiver<R> {
    /// Whether items go through the condition simulator, and with which
    /// configuration.
    pub closed spec fn conditioning(&self) -> Option<LinkConditionerConfig> {
        match self.inner {
            ReceiverPath::Direct(_, _) => None,
            ReceiverPath::Conditioned(c) => Some(c.config()),
        }
    }

    /// The items the simulator holds back; none without a configuration.
    pub closed spec fn schedule(&self) -> Seq<(u64, Packet)> {
        match self.inner {
            ReceiverPath::Direct(_, _) => Seq::empty(),
            ReceiverPath::Conditioned(c) => c.schedule(),
        }
    }

    /// The carrier underneath.
    pub closed spec fn carrier(&self) -> R {
        match self.inner {
            ReceiverPath::Direct(inner, _) => inner,
            ReceiverPath::Conditioned(c) => c.inner_receiver,
        }
    }

    /// Every answer the carrier gave this receiver, in order.
    pub closed spec fn received(&self) -> ClientResults {
        match self.inner {
            ReceiverPath::Direct(_, log) => log@,
            ReceiverPath::Conditioned(c) => c.received(),
        }
    }

    /// A receiver over `inner`; with a configuration, through the simulator,
    /// and without one, passing items on as they come.
    pub fn new(inner: R, link_conditioner: Option<LinkConditionerConfig>) -> (r: Self)
        ensures
            r.conditioning() == link_conditioner,
            r.carrier() == inner,
            r.schedule() == Seq::<(u64, Packet)>::empty(),
            r.received() == Seq::<Result<Option<Packet>, NaiaClientSocketError>>::empty(),
    {
        match link_conditioner {
            Some(config) => PacketReceiver {
                inner: ReceiverPath::Conditioned(ConditionedPacketReceiver::new(inner, &config)),
            },
            None => PacketReceiver { inner: ReceiverPath::Direct(inner, Ghost(Seq::empty())) },
        }
    }

    /// Receives the next available packet, if any: without a configuration
    /// exactly what the carrier answers, and with one what the simulator
    /// releases at the current time.
    pub fn receive(&mut self) -> (r: Result<Option<Packet>, NaiaClientSocketError>)
        ensures
            final(self).conditioning() == old(self).conditioning(),
            old(self).conditioning() is None ==> final(self).received() == old(
                self,
            ).received().push(r),
            old(self).received().len() < final(self).received().len(),
            final(self).received().take(old(self).received().len() as int) == old(self).received(),
            old(self).conditioning() matches Some(config) ==> exists|now: u64|
                receive_outcome(
                    config,
                    old(self).schedule(),
                    final(self).schedule(),
                    now,
                    final(self).received().skip(old(self).received().len() as int),
                    r,
                ),
    {
        let ghost mut witness: u64 = 0;
        let r = match &mut self.inner {
            ReceiverPath::Direct(inner, log) => {
                let r = inner.receive();
                proof {
                    assert(log@.push(r).take(log@.len() as int) =~= log@);
                }
                *log = Ghost(log@.push(r));
                r
            },
            ReceiverPath::Conditioned(conditioned) => {
                let ghost before = conditioned.schedule();
                let ghost log0 = conditioned.received();
                let ghost config = conditioned.config();
                let r = conditioned.receive_now();
                proof {
                    witness = choose|now: u64|
                        receive_outcome(
                            config,
                            before,
                            conditioned.schedule(),
                            now,
                            conditioned.received().skip(log0.len() as int),
                            r,
                        );
                }
                r
            },
        };
        proof {
            if let Some(config) = old(self).conditioning() {
                assert(receive_outcome(
                    config,
                    old(self).schedule(),
                    self.schedule(),
                    witness,
                    self.received().skip(old(self).received().len() as int),
                    r,
                ));
            }
        }
        r
    }

    /// What the carrier knows of its peer's address, whether or not items go
    /// through the simulator.
    pub fn server_addr(&self) -> ServerAddr {
        match &self.inner {
            ReceiverPath::Direct(inner, _) => inner.server_addr(),
            ReceiverPath::Conditioned(conditioned) => conditioned.server_addr(),
        }
    }
}

} // verus!
