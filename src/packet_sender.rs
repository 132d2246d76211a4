use vstd::prelude::*;

use crate::address::ServerAddr;
use crate::packet::Packet;

verus! {

/// The sending half of a carrier. `transmit` never blocks; an error means
/// the packet could not be written now (a channel not yet open), not that
/// the carrier is broken.
pub trait PacketTransmit {
    /// Hands one packet to the carrier.
    fn transmit(&mut self, packet: &Packet) -> Result<(), String>;

    /// What the carrier knows of its peer's address.
    fn server_addr(&self) -> ServerAddr;
}

/// The packets of `batch` whose attempt succeeded, in order: `ok[i]` tells
/// how the attempt at `batch[i]` went.
pub open spec fn accepted(batch: Seq<Packet>, ok: Seq<bool>) -> Seq<Packet>
    decreases batch.len(),
{
    if batch.len() == 0 || ok.len() < batch.len() {
        Seq::empty()
    } else {
        let head = accepted(batch.drop_last(), ok.take(batch.len() - 1));
        if ok[batch.len() - 1] {
            head.push(batch.last())
        } else {
            head
        }
    }
}

/// The packets of `batch` whose attempt failed, in order.
pub open spec fn refused(batch: Seq<Packet>, ok: Seq<bool>) -> Seq<Packet>
    decreases batch.len(),
{
    if batch.len() == 0 || ok.len() < batch.len() {
        Seq::empty()
    } else {
        let head = refused(batch.drop_last(), ok.take(batch.len() - 1));
        if ok[batch.len() - 1] {
            head
        } else {
            head.push(batch.last())
        }
    }
}

/// The newest packets of `backlog` that fit `limit`; all of them without a
/// limit.
pub open spec fn newest(backlog: Seq<Packet>, limit: Option<usize>) -> Seq<Packet> {
    match limit {
        Some(n) => if backlog.len() > n {
            backlog.skip(backlog.len() - n)
        } else {
            backlog
        },
        None => backlog,
    }
}

/// Sends through a carrier that may refuse a packet for a while: a refused
/// packet is kept, and every later send first attempts the kept packets,
/// oldest first, then the new one. `send` itself never fails.
///
/// The backlog is bounded when the sender is made with a limit: once a send
/// leaves more packets waiting than the limit, the oldest are evicted.
/// Without a limit it has no bound but memory, and only grows while the
/// carrier keeps refusing.
pub struct PacketSender<C> {
    carrier: C,
    dropped_outgoing_messages: Vec<Packet>,
    backlog_limit: Option<usize>,
    transmitted: Ghost<Seq<Packet>>,
    attempted: Ghost<Seq<Packet>>,
}

impl<C: PacketTransmit> PacketSender<C> {
    /// The packets waiting for another attempt, oldest first.
    pub closed spec fn backlog(&self) -> Seq<Packet> {
        self.dropped_outgoing_messages@
    }

    /// Every packet the carrier has accepted from this sender, in order.
    pub closed spec fn transmitted(&self) -> Seq<Packet> {
        self.transmitted@
    }

    /// Every packet handed to the carrier's `transmit`, accepted or not, in
    /// the order of the attempts.
    pub closed spec fn attempted(&self) -> Seq<Packet> {
        self.attempted@
    }

    /// The most packets left waiting, if bounded.
    pub closed spec fn limit(&self) -> Option<usize> {
        self.backlog_limit
    }

    /// A sender over `carrier`, with nothing sent or waiting, and a backlog
    /// bounded by memory alone.
    pub fn new(carrier: C) -> (r: Self)
        ensures
            r.backlog() == Seq::<Packet>::empty(),
            r.transmitted() == Seq::<Packet>::empty(),
            r.attempted() == Seq::<Packet>::empty(),
            r.limit() is None,
    {
        PacketSender {
            carrier,
            dropped_outgoing_messages: Vec::new(),
            backlog_limit: None,
            transmitted: Ghost(Seq::empty()),
            attempted: Ghost(Seq::empty()),
        }
    }

    /// A sender over `carrier`, with nothing sent or waiting, that keeps at
    /// most `limit` packets waiting, evicting the oldest first.
    pub fn with_backlog_limit(carrier: C, limit: usize) -> (r: Self)
        ensures
            r.backlog() == Seq::<Packet>::empty(),
            r.transmitted() == Seq::<Packet>::empty(),
            r.attempted() == Seq::<Packet>::empty(),
            r.limit() == Some(limit),
    {
        PacketSender {
            carrier,
            dropped_outgoing_messages: Vec::new(),
            backlog_limit: Some(limit),
            transmitted: Ghost(Seq::empty()),
            attempted: Ghost(Seq::empty()),
        }
    }

    /// The number of packets waiting for another attempt.
    pub fn backlog_len(&self) -> (r: usize)
        ensures
            r == self.backlog().len(),
    {
        self.dropped_outgoing_messages.len()
    }

    /// Attempts the backlog, oldest first, and then `packet`, once each. The
    /// carrier receives the ones it accepts in that order; the ones it
    /// refuses form the new backlog, in the same order.
    pub fn send(&mut self, packet: Packet)
        ensures
            final(self).attempted() == old(self).attempted() + old(self).backlog().push(packet),
            final(self).limit() == old(self).limit(),
            exists|ok: Seq<bool>|
                {
                    &&& ok.len() == old(self).backlog().len() + 1
                    &&& final(self).transmitted() == old(self).transmitted() + #[trigger] accepted(
                        old(self).backlog().push(packet),
                        ok,
                    )
                    &&& final(self).backlog() == newest(
                        refused(old(self).backlog().push(packet), ok),
                        old(self).limit(),
                    )
                },
    {
        let mut pending: Vec<Packet> = Vec::new();
        std::mem::swap(&mut pending, &mut self.dropped_outgoing_messages);
        pending.push(packet);
        let total = pending.len();
        let ghost batch = pending@;
        let ghost sent_before = self.transmitted@;
        let ghost tried_before = self.attempted@;
        let ghost mut ok: Seq<bool> = Seq::empty();
        let mut i: usize = 0;
        proof {
            assert(batch.take(0) =~= Seq::<Packet>::empty());
        }
        while pending.len() > 0
            invariant
                i + pending@.len() == batch.len(),
                batch.len() == total,
                pending@ == batch.skip(i as int),
                ok.len() == i,
                self.backlog_limit == old(self).backlog_limit,
                self.attempted@ == tried_before + batch.take(i as int),
                self.transmitted@ == sent_before + accepted(batch.take(i as int), ok),
                self.dropped_outgoing_messages@ == refused(batch.take(i as int), ok),
            decreases pending@.len(),
        {
            let next = pending.remove(0);
            let ghost prefix = batch.take(i as int);
            let ghost grown = batch.take(i + 1);
            proof {
                assert(next == batch[i as int]);
                assert(grown.drop_last() =~= prefix);
                assert(grown.last() == next);
            }
            self.attempted = Ghost(self.attempted@.push(next));
            proof {
                assert(tried_before + grown =~= (tried_before + prefix).push(next));
            }
            match self.carrier.transmit(&next) {
                Ok(()) => {
                    proof {
                        let ok2 = ok.push(true);
                        assert(ok2.take(i as int) =~= ok);
                        ok = ok2;
                    }
                    self.transmitted = Ghost(self.transmitted@.push(next));
                    proof {
                        assert(sent_before + accepted(grown, ok) =~= (sent_before + accepted(
                            prefix,
                            ok.take(i as int),
                        )).push(next));
                    }
                },
                Err(_) => {
                    proof {
                        let ok2 = ok.push(false);
                        assert(ok2.take(i as int) =~= ok);
                        ok = ok2;
                    }
                    self.dropped_outgoing_messages.push(next);
                },
            }
            i = i + 1;
            proof {
                assert(pending@ =~= batch.skip(i as int));
            }
        }
        proof {
            assert(batch.take(i as int) =~= batch);
            assert(batch == old(self).backlog().push(packet));
            assert(self.transmitted@ == old(self).transmitted() + accepted(batch, ok));
        }
        if let Some(limit) = self.backlog_limit {
            let waiting = self.dropped_outgoing_messages.len();
            if waiting > limit {
                let kept = self.dropped_outgoing_messages.split_off(waiting - limit);
                self.dropped_outgoing_messages = kept;
            }
        }
        proof {
            assert(self.dropped_outgoing_messages@ =~= newest(refused(batch, ok), self.backlog_limit));
        }
    }

    /// What the carrier knows of its peer's address.
    pub fn server_addr(&self) -> ServerAddr {
        self.carrier.server_addr()
    }
}

/// Within one send, the new packet comes after every backlog packet the
/// carrier accepts: what the carrier receives is the accepted part of the
/// backlog, in order, followed by the new packet if it was accepted.
pub proof fn lemma_backlog_goes_first(backlog: Seq<Packet>, packet: Packet, ok: Seq<bool>)
    requires
        ok.len() == backlog.len() + 1,
    ensures
        accepted(backlog.push(packet), ok) == if ok.last() {
            accepted(backlog, ok.drop_last()).push(packet)
        } else {
            accepted(backlog, ok.drop_last())
        },
        refused(backlog.push(packet), ok) == if ok.last() {
            refused(backlog, ok.drop_last())
        } else {
            refused(backlog, ok.drop_last()).push(packet)
        },
{
    assert(backlog.push(packet).drop_last() =~= backlog);
    assert(ok.take(backlog.len() as int) =~= ok.drop_last());
}

/// When the carrier accepts every attempt, it receives the backlog in
/// submission order and then the new packet, and nothing is left waiting.
pub proof fn lemma_all_accepted_drains_in_order(batch: Seq<Packet>, ok: Seq<bool>)
    requires
        ok.len() == batch.len(),
        forall|i: int| 0 <= i < ok.len() ==> #[trigger] ok[i],
    ensures
        accepted(batch, ok) == batch,
        refused(batch, ok) == Seq::<Packet>::empty(),
    decreases batch.len(),
{
    if batch.len() > 0 {
        let short = ok.take(batch.len() - 1);
        assert forall|i: int| 0 <= i < short.len() implies #[trigger] short[i] by {
            assert(short[i] == ok[i]);
        }
        lemma_all_accepted_drains_in_order(batch.drop_last(), short);
        assert(batch.drop_last().push(batch.last()) =~= batch);
    }
}

/// Packets refused while the carrier is not ready reach it in submission
/// order once it is: when the send of `first` is refused, the next send
/// (the backlog `first`, then `second`) is refused throughout, and the third send
/// (the backlog `first, second`, then `third`) is accepted throughout, the carrier
/// receives exactly `first, second, third`, and nothing is left waiting.
pub proof fn lemma_refused_packets_arrive_in_order(
    first: Packet,
    second: Packet,
    third: Packet,
    ok1: Seq<bool>,
    ok2: Seq<bool>,
    ok3: Seq<bool>,
)
    requires
        ok1 == seq![false],
        ok2 == seq![false, false],
        ok3 == seq![true, true, true],
    ensures
        refused(Seq::empty().push(first), ok1) == seq![first],
        refused(seq![first].push(second), ok2) == seq![first, second],
        accepted(Seq::empty().push(first), ok1) + accepted(seq![first].push(second), ok2) + accepted(
            seq![first, second].push(third),
            ok3,
        ) == seq![first, second, third],
        refused(seq![first, second].push(third), ok3).len() == 0,
{
    reveal_with_fuel(accepted, 4);
    reveal_with_fuel(refused, 4);
    assert(Seq::<Packet>::empty().push(first).drop_last() =~= Seq::<Packet>::empty());
    assert(seq![first].push(second).drop_last() =~= seq![first]);
    assert(seq![first, second].push(third).drop_last() =~= seq![first, second]);
    assert(seq![first, second].drop_last() =~= seq![first]);
    assert(seq![first].drop_last() =~= Seq::<Packet>::empty());
    assert(ok2.take(1) =~= seq![false]);
    assert(ok3.take(2) =~= seq![true, true]);
    assert(ok3.take(2).take(1) =~= seq![true]);
    assert(ok2.take(1).take(0) =~= Seq::<bool>::empty());
    assert(ok1.take(0) =~= Seq::<bool>::empty());
    assert(ok3.take(2).take(1).take(0) =~= Seq::<bool>::empty());
    assert(accepted(Seq::empty().push(first), ok1) + accepted(seq![first].push(second), ok2) + accepted(
        seq![first, second].push(third),
        ok3,
    ) =~= seq![first, second, third]);
}

} // verus!
