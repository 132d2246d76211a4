use vstd::prelude::*;

use crate::time_queue::{
    first_due_index, has_ready, is_time_sorted, lemma_first_due_index, lemma_ready_iff_first_due,
    TimeQueue,
};

verus! {

/// Loss probabilities are counted in parts per million.
pub const LOSS_SCALE: u32 = 1000000;

/// How inbound traffic is degraded: every item is dropped with probability
/// `incoming_loss / LOSS_SCALE`; a surviving item becomes visible
/// `incoming_latency` milliseconds after it arrived, plus a delay drawn
/// uniformly from `0..=incoming_jitter` milliseconds.
///
/// The jitter is one-sided, so `incoming_latency` is the least delay any item
/// sees. A loss of `LOSS_SCALE` or more drops everything.
#[derive(Clone, Copy, Debug, PartialEq, Eq, Structural)]
pub struct LinkConditionerConfig {
    pub incoming_latency: u32,
    pub incoming_jitter: u32,
    pub incoming_loss: u32,
}

impl LinkConditionerConfig {
    pub fn new(incoming_latency: u32, incoming_jitter: u32, incoming_loss: u32) -> (r:
        LinkConditionerConfig)
        ensures
            r.incoming_latency == incoming_latency,
            r.incoming_jitter == incoming_jitter,
            r.incoming_loss == incoming_loss,
    {
        LinkConditionerConfig { incoming_latency, incoming_jitter, incoming_loss }
    }
}

/// Whether an item survives when the loss draw is `loss_roll`.
pub open spec fn admits(config: LinkConditionerConfig, loss_roll: u32) -> bool {
    loss_roll >= config.incoming_loss
}

/// When an item that arrived at `now` becomes due, for the jitter draw
/// `jitter_roll`; times past the clock's range stay at its end.
pub open spec fn delivery_time(config: LinkConditionerConfig, now: u64, jitter_roll: u32) -> u64 {
    let t = now + config.incoming_latency + jitter_roll;
    if t > u64::MAX {
        u64::MAX
    } else {
        t as u64
    }
}

/// The schedule after one item arrived at `now`, for given draws.
pub open spec fn conditioned<T>(
    config: LinkConditionerConfig,
    q: Seq<(u64, T)>,
    now: u64,
    item: T,
    loss_roll: u32,
    jitter_roll: u32,
) -> Seq<(u64, T)> {
    if admits(config, loss_roll) {
        q.push((delivery_time(config, now, jitter_roll), item))
    } else {
        q
    }
}

/// The times at which an item arriving at `now` may become due.
pub open spec fn in_delivery_window(config: LinkConditionerConfig, now: u64, t: u64) -> bool {
    delivery_time(config, now, 0) <= t <= delivery_time(config, now, config.incoming_jitter)
}

/// What one arrival at `now` may do to the schedule, whatever is drawn: the
/// item is dropped (only where loss is possible), or it is appended with a
/// time in the delivery window (only where survival is possible).
pub open spec fn arrival_outcome<T>(
    config: LinkConditionerConfig,
    before: Seq<(u64, T)>,
    after: Seq<(u64, T)>,
    now: u64,
    item: T,
) -> bool {
    ||| after == before && config.incoming_loss > 0
    ||| {
        &&& config.incoming_loss < LOSS_SCALE
        &&& after.len() == before.len() + 1
        &&& after.drop_last() == before
        &&& after.last().1 == item
        &&& in_delivery_window(config, now, after.last().0)
    }
}

/// Relies on rand's `thread_rng` and `Rng::gen_range`: a draw from
/// `0..bound`; the range must not be empty.
#[verifier::external_body]
fn random_below(bound: u64) -> (r: u64)
    requires
        bound > 0,
    ensures
        r < bound,
{
    rand::Rng::gen_range(&mut rand::thread_rng(), 0..bound)
}

/// Puts one newly arrived item through the simulator, for given draws: a
/// loss draw `loss_roll` in `0..LOSS_SCALE` and a jitter draw `jitter_roll` in
/// `0..=incoming_jitter`. The item is never changed, only scheduled or
/// dropped.
pub fn process_packet<T>(
    config: &LinkConditionerConfig,
    time_queue: &mut TimeQueue<T>,
    now: u64,
    packet: T,
    loss_roll: u32,
    jitter_roll: u32,
)
    requires
        loss_roll < LOSS_SCALE,
        jitter_roll <= config.incoming_jitter,
    ensures
        final(time_queue)@ == conditioned(*config, old(time_queue)@, now, packet, loss_roll, jitter_roll),
{
    if loss_roll >= config.incoming_loss {
        let delay: u64 = config.incoming_latency as u64 + jitter_roll as u64;
        let at: u64 = if now > u64::MAX - delay {
            u64::MAX
        } else {
            now + delay
        };
        time_queue.add_item(at, packet);
    }
}

/// Puts one newly arrived item through the simulator, drawing the loss and
/// jitter at random.
pub fn condition_packet<T>(
    config: &LinkConditionerConfig,
    time_queue: &mut TimeQueue<T>,
    now: u64,
    packet: T,
)
    ensures
        arrival_outcome(*config, old(time_queue)@, final(time_queue)@, now, packet),
{
    let loss_roll = random_below(LOSS_SCALE as u64) as u32;
    let jitter_roll = random_below(config.incoming_jitter as u64 + 1) as u32;
    let ghost before = time_queue@;
    process_packet(config, time_queue, now, packet, loss_roll, jitter_roll);
    proof {
        if admits(*config, loss_roll) {
            assert(time_queue@.drop_last() =~= before);
        }
    }
}

/// With no loss and no jitter, an arriving item is always scheduled, at
/// exactly its arrival time plus the latency (never earlier, the end of the
/// clock's range aside); and when items arrive at non-decreasing times, the
/// schedule stays sorted by time, so they leave in the order they arrived.
pub proof fn lemma_steady_link_keeps_arrival_order<T>(
    config: LinkConditionerConfig,
    q: Seq<(u64, T)>,
    now: u64,
    item: T,
    loss_roll: u32,
    jitter_roll: u32,
)
    requires
        config.incoming_loss == 0,
        config.incoming_jitter == 0,
        loss_roll < LOSS_SCALE,
        jitter_roll <= config.incoming_jitter,
        is_time_sorted(q),
        q.len() > 0 ==> q.last().0 <= delivery_time(config, now, 0),
    ensures
        conditioned(config, q, now, item, loss_roll, jitter_roll) == q.push(
            (delivery_time(config, now, 0), item),
        ),
        is_time_sorted(conditioned(config, q, now, item, loss_roll, jitter_roll)),
        delivery_time(config, now, 0) >= now + config.incoming_latency
            || delivery_time(config, now, 0) == u64::MAX,
{
    let r = q.push((delivery_time(config, now, 0), item));
    assert forall|i: int, j: int| 0 <= i <= j < r.len() implies #[trigger] r[i].0 <= #[trigger] r[j].0 by {
        if j == r.len() - 1 && i < j {
            assert(q[i].0 <= q.last().0);
        } else if j < r.len() - 1 {
            assert(q[i].0 <= q[j].0);
        }
    }
}

/// The items of `items` whose flag in `keep` is set, in order.
pub open spec fn kept<T>(items: Seq<T>, keep: Seq<bool>) -> Seq<T>
    decreases items.len(),
{
    if items.len() == 0 || keep.len() < items.len() {
        Seq::empty()
    } else {
        let head = kept(items.drop_last(), keep.take(items.len() - 1));
        if keep[items.len() - 1] {
            head.push(items.last())
        } else {
            head
        }
    }
}

/// The packets among what a carrier returned, in order.
pub open spec fn arrivals_of<T, E>(results: Seq<Result<Option<T>, E>>) -> Seq<T>
    decreases results.len(),
{
    if results.len() == 0 {
        Seq::empty()
    } else {
        let head = arrivals_of(results.drop_last());
        match results.last() {
            Ok(Some(p)) => head.push(p),
            _ => head,
        }
    }
}

/// How `arrivals`, all received at `now`, turned the schedule `before` into
/// `after`; `keep` tells which of them survived their loss draw. The
/// survivors are appended in arrival order, unchanged, each due within the
/// delivery window. An item is dropped only where loss is possible, and
/// survives only where survival is.
pub open spec fn arrivals_absorbed<T>(
    config: LinkConditionerConfig,
    before: Seq<(u64, T)>,
    after: Seq<(u64, T)>,
    now: u64,
    arrivals: Seq<T>,
    keep: Seq<bool>,
) -> bool {
    let added = after.skip(before.len() as int);
    &&& keep.len() == arrivals.len()
    &&& before.len() <= after.len()
    &&& after.take(before.len() as int) == before
    &&& added.map_values(|e: (u64, T)| e.1) == kept(arrivals, keep)
    &&& forall|i: int| 0 <= i < added.len() ==> in_delivery_window(config, now, #[trigger] added[i].0)
    &&& forall|i: int|
        0 <= i < keep.len() ==> (#[trigger] keep[i] ==> config.incoming_loss < LOSS_SCALE) && (
        !keep[i] ==> config.incoming_loss > 0)
}

/// Every result but the last delivered a packet: the carrier was drained
/// until it had nothing or failed (or the drain limit was reached).
pub open spec fn drained<T, E>(results: Seq<Result<Option<T>, E>>) -> bool {
    &&& results.len() >= 1
    &&& forall|i: int| 0 <= i < results.len() - 1 ==> (#[trigger] results[i] matches Ok(Some(_)))
}

/// The schedule `q` gives up its first-leaving entry at `now` if that is
/// due: `r` is what is handed out and `after` what remains.
pub open spec fn released<T>(q: Seq<(u64, T)>, now: u64, r: Option<T>, after: Seq<(u64, T)>) -> bool {
    if has_ready(q, now) {
        r == Some(q[first_due_index(q)].1) && after == q.remove(first_due_index(q))
    } else {
        r is None && after == q
    }
}

/// One conditioned receive at `now` that saw the carrier return `results`:
/// the carrier was drained; the packets it delivered went through the
/// simulator into the schedule; then, if the carrier's last answer was an
/// error, that very error is returned and nothing leaves; otherwise the
/// result is `Ok`, with the first-leaving entry if it is due.
pub open spec fn receive_outcome<T, E>(
    config: LinkConditionerConfig,
    before: Seq<(u64, T)>,
    after: Seq<(u64, T)>,
    now: u64,
    results: Seq<Result<Option<T>, E>>,
    r: Result<Option<T>, E>,
) -> bool {
    &&& drained(results)
    &&& exists|mid: Seq<(u64, T)>, keep: Seq<bool>|
        {
            &&& #[trigger] arrivals_absorbed(config, before, mid, now, arrivals_of(results), keep)
            &&& match results.last() {
                Err(e) => r == Err::<Option<T>, E>(e) && after == mid,
                _ => r matches Ok(x) && released(mid, now, x, after),
            }
        }
}

/// Handles one answer of the carrier during a receive at `now`: a packet
/// goes through the simulator and draining goes on (`None`); an error ends
/// the receive with that error and the schedule as it is; "nothing
/// available" ends it with the first-leaving entry if it is due.
pub fn absorb<T, E>(
    config: &LinkConditionerConfig,
    time_queue: &mut TimeQueue<T>,
    now: u64,
    received: Result<Option<T>, E>,
) -> (r: Option<Result<Option<T>, E>>)
    ensures
        received matches Ok(Some(p)) ==> r is None && arrival_outcome(
            *config,
            old(time_queue)@,
            final(time_queue)@,
            now,
            p,
        ),
        received matches Err(e) ==> r == Some(Err::<Option<T>, E>(e)) && final(time_queue)@ == old(
            time_queue,
        )@,
        received matches Ok(None) ==> (r matches Some(Ok(x)) && released(
            old(time_queue)@,
            now,
            x,
            final(time_queue)@,
        )),
{
    match received {
        Ok(Some(packet)) => {
            condition_packet(config, time_queue, now, packet);
            None
        },
        Ok(None) => Some(Ok(time_queue.pop_item(now))),
        Err(err) => Some(Err(err)),
    }
}

proof fn lemma_kept_push<T>(items: Seq<T>, keep: Seq<bool>, item: T, b: bool)
    requires
        keep.len() == items.len(),
    ensures
        kept(items.push(item), keep.push(b)) == if b {
            kept(items, keep).push(item)
        } else {
            kept(items, keep)
        },
{
    assert(items.push(item).drop_last() =~= items);
    assert(keep.push(b).take(items.len() as int) =~= keep);
}

/// What the carrier returned, one answer more.
pub proof fn lemma_arrivals_of_push<T, E>(results: Seq<Result<Option<T>, E>>, got: Result<Option<T>, E>)
    ensures
        arrivals_of(results.push(got)) == match got {
            Ok(Some(p)) => arrivals_of(results).push(p),
            _ => arrivals_of(results),
        },
{
    assert(results.push(got).drop_last() =~= results);
}

/// One more arrival keeps the absorbed relation, with its survival flag.
pub proof fn lemma_absorb_arrival<T>(
    config: LinkConditionerConfig,
    before: Seq<(u64, T)>,
    mid: Seq<(u64, T)>,
    after: Seq<(u64, T)>,
    now: u64,
    arrivals: Seq<T>,
    keep: Seq<bool>,
    item: T,
)
    requires
        arrivals_absorbed(config, before, mid, now, arrivals, keep),
        arrival_outcome(config, mid, after, now, item),
    ensures
        arrivals_absorbed(
            config,
            before,
            after,
            now,
            arrivals.push(item),
            keep.push(after.len() > mid.len()),
        ),
{
    let b = after.len() > mid.len();
    lemma_kept_push(arrivals, keep, item, b);
    let keep2 = keep.push(b);
    assert forall|i: int| 0 <= i < keep2.len() implies (#[trigger] keep2[i]
        ==> config.incoming_loss < LOSS_SCALE) && (!keep2[i] ==> config.incoming_loss > 0) by {
        if i < keep.len() {
            assert(keep2[i] == keep[i]);
        }
    }
    if b {
        let added_mid = mid.skip(before.len() as int);
        let added = after.skip(before.len() as int);
        assert(after.drop_last() == mid);
        assert(added =~= added_mid.push(after.last()));
        assert(after.take(before.len() as int) =~= mid.take(before.len() as int));
        assert(added.map_values(|e: (u64, T)| e.1) =~= added_mid.map_values(|e: (u64, T)| e.1).push(
            item,
        ));
        assert forall|i: int| 0 <= i < added.len() implies in_delivery_window(
            config,
            now,
            #[trigger] added[i].0,
        ) by {
            if i < added_mid.len() {
                assert(added[i] == added_mid[i]);
            }
        }
    }
}

proof fn lemma_kept_all_or_none<T>(items: Seq<T>, keep: Seq<bool>, value: bool)
    requires
        keep.len() == items.len(),
        forall|i: int| 0 <= i < keep.len() ==> #[trigger] keep[i] == value,
    ensures
        kept(items, keep) == if value {
            items
        } else {
            Seq::<T>::empty()
        },
    decreases items.len(),
{
    if items.len() > 0 {
        let short = keep.take(items.len() - 1);
        assert forall|i: int| 0 <= i < short.len() implies #[trigger] short[i] == value by {
            assert(short[i] == keep[i]);
        }
        lemma_kept_all_or_none(items.drop_last(), short, value);
        assert(items.drop_last().push(items.last()) =~= items);
    }
}

proof fn lemma_kept_from_items<T>(items: Seq<T>, keep: Seq<bool>, j: int)
    requires
        keep.len() == items.len(),
        0 <= j < kept(items, keep).len(),
    ensures
        items.contains(kept(items, keep)[j]),
    decreases items.len(),
{
    if items.len() > 0 {
        let short = keep.take(items.len() - 1);
        let head = kept(items.drop_last(), short);
        if j < head.len() {
            lemma_kept_from_items(items.drop_last(), short, j);
            let k = choose|k: int| 0 <= k < items.drop_last().len() && items.drop_last()[k] == head[j];
            assert(items[k] == head[j]);
        } else {
            assert(items[items.len() - 1] == items.last());
        }
    }
}

/// Under total loss, a receive on an empty schedule hands nothing out and
/// leaves the schedule empty, whatever the carrier delivered; so no item is
/// ever returned.
pub proof fn lemma_total_loss_never_delivers<T, E>(
    config: LinkConditionerConfig,
    before: Seq<(u64, T)>,
    after: Seq<(u64, T)>,
    now: u64,
    results: Seq<Result<Option<T>, E>>,
    r: Result<Option<T>, E>,
)
    requires
        config.incoming_loss >= LOSS_SCALE,
        before.len() == 0,
        receive_outcome(config, before, after, now, results, r),
    ensures
        !(r matches Ok(Some(_))),
        after.len() == 0,
{
    let (mid, keep) = choose|mid: Seq<(u64, T)>, keep: Seq<bool>|
        {
            &&& #[trigger] arrivals_absorbed(config, before, mid, now, arrivals_of(results), keep)
            &&& match results.last() {
                Err(e) => r == Err::<Option<T>, E>(e) && after == mid,
                _ => r matches Ok(x) && released(mid, now, x, after),
            }
        };
    assert forall|i: int| 0 <= i < keep.len() implies #[trigger] keep[i] == false by {}
    lemma_kept_all_or_none(arrivals_of(results), keep, false);
    let added = mid.skip(before.len() as int);
    assert(added.map_values(|e: (u64, T)| e.1).len() == 0);
    assert(mid.len() == 0);
}

/// With no loss and no jitter, every packet the carrier delivers is
/// scheduled, in arrival order, due exactly at the receive time plus the
/// latency.
pub proof fn lemma_lossless_schedules_every_arrival<T>(
    config: LinkConditionerConfig,
    before: Seq<(u64, T)>,
    after: Seq<(u64, T)>,
    now: u64,
    arrivals: Seq<T>,
    keep: Seq<bool>,
)
    requires
        config.incoming_loss == 0,
        config.incoming_jitter == 0,
        arrivals_absorbed(config, before, after, now, arrivals, keep),
    ensures
        after.len() == before.len() + arrivals.len(),
        after.take(before.len() as int) == before,
        forall|i: int|
            0 <= i < arrivals.len() ==> #[trigger] after[before.len() + i] == (
                delivery_time(config, now, 0),
                arrivals[i],
            ),
{
    assert forall|i: int| 0 <= i < keep.len() implies #[trigger] keep[i] == true by {}
    lemma_kept_all_or_none(arrivals, keep, true);
    let added = after.skip(before.len() as int);
    assert(added.map_values(|e: (u64, T)| e.1).len() == arrivals.len());
    assert forall|i: int| 0 <= i < arrivals.len() implies #[trigger] after[before.len() + i] == (
        delivery_time(config, now, 0),
        arrivals[i],
    ) by {
        assert(added[i] == after[before.len() + i]);
        assert(added.map_values(|e: (u64, T)| e.1)[i] == arrivals[i]);
        assert(in_delivery_window(config, now, added[i].0));
    }
}

/// What a receive hands out is never invented: it was scheduled before, or
/// the carrier delivered it during this receive; and it was due.
pub proof fn lemma_returned_item_was_received<T, E>(
    config: LinkConditionerConfig,
    before: Seq<(u64, T)>,
    after: Seq<(u64, T)>,
    now: u64,
    results: Seq<Result<Option<T>, E>>,
    p: T,
)
    requires
        receive_outcome(config, before, after, now, results, Ok::<Option<T>, E>(Some(p))),
    ensures
        (exists|i: int| 0 <= i < before.len() && #[trigger] before[i].1 == p && before[i].0 <= now)
            || exists|i: int| 0 <= i < arrivals_of(results).len() && #[trigger] arrivals_of(results)[i] == p,
{
    let (mid, keep) = choose|mid: Seq<(u64, T)>, keep: Seq<bool>|
        {
            &&& #[trigger] arrivals_absorbed(config, before, mid, now, arrivals_of(results), keep)
            &&& match results.last() {
                Err(e) => Ok::<Option<T>, E>(Some(p)) == Err::<Option<T>, E>(e) && after == mid,
                _ => Ok::<Option<T>, E>(Some(p)) matches Ok(x) && released(mid, now, x, after),
            }
        };
    lemma_ready_iff_first_due(mid, now);
    lemma_first_due_index(mid);
    let k = first_due_index(mid);
    assert(mid[k].1 == p && mid[k].0 <= now);
    if k < before.len() {
        assert(mid.take(before.len() as int)[k] == before[k]);
    } else {
        let added = mid.skip(before.len() as int);
        let j = k - before.len();
        assert(added[j] == mid[k]);
        assert(added.map_values(|e: (u64, T)| e.1)[j] == p);
        lemma_kept_from_items(arrivals_of(results), keep, j);
    }
}

/// An item handed out by a receive at `now` was due at `now`: nothing
/// leaves before its due time, and it leaves the schedule.
pub proof fn lemma_never_early<T, E>(
    config: LinkConditionerConfig,
    before: Seq<(u64, T)>,
    after: Seq<(u64, T)>,
    now: u64,
    results: Seq<Result<Option<T>, E>>,
    p: T,
)
    requires
        receive_outcome(config, before, after, now, results, Ok::<Option<T>, E>(Some(p))),
    ensures
        exists|mid: Seq<(u64, T)>, k: int|
            0 <= k < mid.len() && #[trigger] mid[k] == (mid[k].0, p) && mid[k].0 <= now && after
                == mid.remove(k),
{
    let (mid, keep) = choose|mid: Seq<(u64, T)>, keep: Seq<bool>|
        {
            &&& #[trigger] arrivals_absorbed(config, before, mid, now, arrivals_of(results), keep)
            &&& match results.last() {
                Err(e) => Ok::<Option<T>, E>(Some(p)) == Err::<Option<T>, E>(e) && after == mid,
                _ => Ok::<Option<T>, E>(Some(p)) matches Ok(x) && released(mid, now, x, after),
            }
        };
    lemma_ready_iff_first_due(mid, now);
    lemma_first_due_index(mid);
    let k = first_due_index(mid);
    assert(mid[k] == (mid[k].0, p));
}

/// Under total loss no run of receives ever hands out an item: starting from
/// an empty schedule, after every receive of the run (whatever the carrier
/// delivered, whatever the clock read) the schedule is still empty and the
/// result is not a packet.
pub proof fn lemma_total_loss_run<T, E>(
    config: LinkConditionerConfig,
    schedules: Seq<Seq<(u64, T)>>,
    nows: Seq<u64>,
    answers: Seq<Seq<Result<Option<T>, E>>>,
    results: Seq<Result<Option<T>, E>>,
)
    requires
        config.incoming_loss >= LOSS_SCALE,
        schedules.len() == results.len() + 1,
        nows.len() == results.len(),
        answers.len() == results.len(),
        schedules[0].len() == 0,
        forall|i: int|
            0 <= i < results.len() ==> #[trigger] receive_outcome(
                config,
                schedules[i],
                schedules[i + 1],
                nows[i],
                answers[i],
                results[i],
            ),
    ensures
        forall|i: int| 0 <= i < results.len() ==> !(#[trigger] results[i] matches Ok(Some(_))),
        forall|i: int| 0 <= i < schedules.len() ==> (#[trigger] schedules[i]).len() == 0,
    decreases results.len(),
{
    if results.len() > 0 {
        let n = results.len() - 1;
        lemma_total_loss_run(
            config,
            schedules.take(n + 1),
            nows.take(n),
            answers.take(n),
            results.take(n),
        );
        assert(schedules.take(n + 1)[n] == schedules[n]);
        assert(receive_outcome(config, schedules[n], schedules[n + 1], nows[n], answers[n], results[n]));
        lemma_total_loss_never_delivers(config, schedules[n], schedules[n + 1], nows[n], answers[n], results[n]);
        assert forall|i: int| 0 <= i < results.len() implies !(#[trigger] results[i] matches Ok(Some(_))) by {
            if i < n {
                assert(results.take(n)[i] == results[i]);
            }
        }
        assert forall|i: int| 0 <= i < schedules.len() implies (#[trigger] schedules[i]).len() == 0 by {
            if i <= n {
                assert(schedules.take(n + 1)[i] == schedules[i]);
            }
        }
    }
}

/// The schedule of a steady link after a receive at `now`: what was there,
/// then every arrival, due at `now` plus the latency.
pub open spec fn steady_schedule<T>(
    config: LinkConditionerConfig,
    before: Seq<(u64, T)>,
    now: u64,
    arrivals: Seq<T>,
) -> Seq<(u64, T)> {
    before + Seq::new(arrivals.len(), |i: int| (delivery_time(config, now, 0), arrivals[i]))
}

/// With no loss and no jitter, a receive is first in, first out. If the
/// schedule is sorted by time and nothing in it is due later than `now`
/// plus the latency (which holds after receives at earlier times), then
/// every arrival is appended behind it, due at `now` plus the latency; an
/// item handed out is the front of that schedule, which was due; and the
/// schedule left is again sorted and due no later than `now` plus the
/// latency. Over a run of receives at non-decreasing times, items therefore
/// come out exactly once, in arrival order, each no earlier than its
/// arrival time plus the latency.
pub proof fn lemma_steady_link_receive_is_fifo<T, E>(
    config: LinkConditionerConfig,
    before: Seq<(u64, T)>,
    after: Seq<(u64, T)>,
    now: u64,
    answers: Seq<Result<Option<T>, E>>,
    r: Result<Option<T>, E>,
)
    requires
        config.incoming_loss == 0,
        config.incoming_jitter == 0,
        is_time_sorted(before),
        forall|i: int| 0 <= i < before.len() ==> #[trigger] before[i].0 <= delivery_time(config, now, 0),
        receive_outcome(config, before, after, now, answers, r),
    ensures
        is_time_sorted(after),
        forall|i: int| 0 <= i < after.len() ==> #[trigger] after[i].0 <= delivery_time(config, now, 0),
        r matches Ok(Some(p)) ==> {
            let full = steady_schedule(config, before, now, arrivals_of(answers));
            &&& full.len() > 0
            &&& p == full[0].1
            &&& full[0].0 <= now
            &&& after == full.drop_first()
        },
        !(r matches Ok(Some(_))) ==> after == steady_schedule(config, before, now, arrivals_of(answers)),
{
    let arrivals = arrivals_of(answers);
    let full = steady_schedule(config, before, now, arrivals);
    let dt = delivery_time(config, now, 0);
    let (mid, keep) = choose|mid: Seq<(u64, T)>, keep: Seq<bool>|
        {
            &&& #[trigger] arrivals_absorbed(config, before, mid, now, arrivals_of(answers), keep)
            &&& match answers.last() {
                Err(e) => r == Err::<Option<T>, E>(e) && after == mid,
                _ => r matches Ok(x) && released(mid, now, x, after),
            }
        };
    lemma_lossless_schedules_every_arrival(config, before, mid, now, arrivals, keep);
    assert forall|i: int| 0 <= i < mid.len() implies mid[i] == full[i] by {
        if i < before.len() {
            assert(mid.take(before.len() as int)[i] == before[i]);
        } else {
            assert(mid[before.len() + (i - before.len())] == (dt, arrivals[i - before.len()]));
        }
    }
    assert(mid =~= full);
    assert forall|i: int, j: int| 0 <= i <= j < full.len() implies #[trigger] full[i].0 <= #[trigger] full[j].0 by {
        if j < before.len() {
            assert(before[i].0 <= before[j].0);
        } else if i < before.len() {
            assert(before[i].0 <= dt);
        }
    }
    assert forall|i: int| 0 <= i < full.len() implies #[trigger] full[i].0 <= dt by {
        if i < before.len() {
            assert(full[i] == before[i]);
        }
    }
    if has_ready(full, now) {
        let i = choose|i: int| 0 <= i < full.len() && #[trigger] full[i].0 <= now;
        assert(full[0].0 <= full[i].0);
        crate::time_queue::lemma_sorted_releases_front(full, now);
        let rest = full.remove(0);
        assert(rest =~= full.drop_first());
        assert forall|i: int| 0 <= i < rest.len() implies #[trigger] rest[i].0 <= dt by {
            assert(rest[i] == full[i + 1]);
        }
    }
}

} // verus!
