use vstd::prelude::*;

verus! {

/// Index of the entry that leaves a schedule first: the one with the
/// smallest time, and among entries with that time the one inserted first.
pub open spec fn first_due_index<T>(q: Seq<(u64, T)>) -> int
    decreases q.len(),
{
    if q.len() <= 1 {
        0
    } else {
        let k = first_due_index(q.drop_last());
        if q.last().0 < q[k].0 {
            q.len() - 1
        } else {
            k
        }
    }
}

/// Whether some entry of the schedule is due at `now`.
pub open spec fn has_ready<T>(q: Seq<(u64, T)>, now: u64) -> bool {
    exists|i: int| 0 <= i < q.len() && #[trigger] q[i].0 <= now
}

/// Times that never decrease from the front of the schedule to its back.
pub open spec fn is_time_sorted<T>(q: Seq<(u64, T)>) -> bool {
    forall|i: int, j: int| 0 <= i <= j < q.len() ==> #[trigger] q[i].0 <= #[trigger] q[j].0
}

/// The entry picked by `first_due_index` has the smallest time, and every
/// entry inserted before it has a strictly larger time.
pub proof fn lemma_first_due_index<T>(q: Seq<(u64, T)>)
    requires
        q.len() > 0,
    ensures
        0 <= first_due_index(q) < q.len(),
        forall|j: int| 0 <= j < q.len() ==> q[first_due_index(q)].0 <= #[trigger] q[j].0,
        forall|j: int| 0 <= j < first_due_index(q) ==> q[first_due_index(q)].0 < #[trigger] q[j].0,
    decreases q.len(),
{
    if q.len() > 1 {
        let p = q.drop_last();
        lemma_first_due_index(p);
        let k = first_due_index(p);
        let m = first_due_index(q);
        assert(forall|j: int| 0 <= j < p.len() ==> #[trigger] p[j] == q[j]);
        assert(p[k] == q[k]);
        if q.last().0 < q[k].0 {
            assert(m == q.len() - 1);
            assert forall|j: int| 0 <= j < q.len() implies q[m].0 <= #[trigger] q[j].0 by {
                if j < q.len() - 1 {
                    assert(p[k].0 <= p[j].0);
                }
            }
            assert forall|j: int| 0 <= j < m implies q[m].0 < #[trigger] q[j].0 by {
                assert(p[k].0 <= p[j].0);
            }
        } else {
            assert(m == k);
            assert forall|j: int| 0 <= j < q.len() implies q[m].0 <= #[trigger] q[j].0 by {
                if j < q.len() - 1 {
                    assert(p[k].0 <= p[j].0);
                }
            }
            assert forall|j: int| 0 <= j < m implies q[m].0 < #[trigger] q[j].0 by {
                assert(p[k].0 < p[j].0);
            }
        }
    }
}

/// A schedule is due exactly when its first-leaving entry is due.
pub proof fn lemma_ready_iff_first_due<T>(q: Seq<(u64, T)>, now: u64)
    ensures
        has_ready(q, now) <==> (q.len() > 0 && q[first_due_index(q)].0 <= now),
{
    if q.len() > 0 {
        lemma_first_due_index(q);
        if has_ready(q, now) {
            let i = choose|i: int| 0 <= i < q.len() && #[trigger] q[i].0 <= now;
            assert(q[first_due_index(q)].0 <= q[i].0);
        }
    }
}

/// In a schedule sorted by time, the front entry leaves first.
pub proof fn lemma_sorted_front_leaves_first<T>(q: Seq<(u64, T)>)
    requires
        q.len() > 0,
        is_time_sorted(q),
    ensures
        first_due_index(q) == 0,
{
    lemma_first_due_index(q);
    let k = first_due_index(q);
    if k > 0 {
        assert(q[0].0 <= q[k].0);
        assert(q[k].0 < q[0].0);
    }
}

/// A schedule sorted by time releases its front entry as soon as that is
/// due, and is still sorted once it has left; so entries scheduled in order
/// of time leave in that order, each exactly once.
pub proof fn lemma_sorted_releases_front<T>(q: Seq<(u64, T)>, now: u64)
    requires
        is_time_sorted(q),
        q.len() > 0,
        q[0].0 <= now,
    ensures
        has_ready(q, now),
        first_due_index(q) == 0,
        is_time_sorted(q.remove(0)),
{
    lemma_sorted_front_leaves_first(q);
    let r = q.remove(0);
    assert forall|i: int, j: int| 0 <= i <= j < r.len() implies #[trigger] r[i].0 <= #[trigger] r[j].0 by {
        assert(r[i] == q[i + 1] && r[j] == q[j + 1]);
    }
}

/// A time-ordered delivery schedule: items are inserted with the time at
/// which they become due, and leave one at a time, earliest time first, ties
/// in insertion order.
#[derive(Clone)]
pub struct TimeQueue<T> {
    entries: Vec<(u64, T)>,
}

impl<T> View for TimeQueue<T> {
    type V = Seq<(u64, T)>;

    /// The entries in insertion order, each with its due time.
    closed spec fn view(&self) -> Seq<(u64, T)> {
        self.entries@
    }
}

impl<T> TimeQueue<T> {
    /// An empty schedule.
    pub fn new() -> (r: TimeQueue<T>)
        ensures
            r@ == Seq::<(u64, T)>::empty(),
    {
        TimeQueue { entries: Vec::new() }
    }

    /// Adds `item`, due at `instant`. Nothing is checked or merged.
    pub fn add_item(&mut self, instant: u64, item: T)
        ensures
            final(self)@ == old(self)@.push((instant, item)),
    {
        self.entries.push((instant, item));
    }

    /// The number of items still scheduled.
    pub fn len(&self) -> (r: usize)
        ensures
            r == self@.len(),
    {
        self.entries.len()
    }

    /// Whether some item is due at `now`.
    pub fn has_item(&self, now: u64) -> (r: bool)
        ensures
            r == has_ready(self@, now),
    {
        let n = self.entries.len();
        let mut i: usize = 0;
        while i < n
            invariant
                n == self@.len(),
                0 <= i <= n,
                forall|j: int| 0 <= j < i ==> #[trigger] self@[j].0 > now,
            decreases n - i,
        {
            if self.entries[i].0 <= now {
                assert(self@[i as int].0 <= now);
                return true;
            }
            i = i + 1;
        }
        false
    }

    /// Index of the entry that leaves first; the schedule must not be empty.
    fn first_due(&self) -> (r: usize)
        requires
            self@.len() > 0,
        ensures
            r == first_due_index(self@),
            r < self@.len(),
    {
        proof {
            lemma_first_due_index(self@);
        }
        let n = self.entries.len();
        let mut best: usize = 0;
        let mut i: usize = 1;
        assert(self@.take(1).len() == 1);
        while i < n
            invariant
                n == self@.len(),
                1 <= i <= n,
                0 <= best < i,
                best == first_due_index(self@.take(i as int)),
            decreases n - i,
        {
            let ghost prefix = self@.take(i as int);
            let ghost next = self@.take(i + 1);
            assert(next.drop_last() =~= prefix);
            assert(next.last() == self@[i as int]);
            assert(prefix[best as int] == self@[best as int]);
            if self.entries[i].0 < self.entries[best].0 {
                best = i;
            }
            i = i + 1;
        }
        assert(self@.take(n as int) =~= self@);
        best
    }

    /// Removes and returns the item that leaves first, if it is due at
    /// `now`; otherwise leaves the schedule as it is.
    pub fn pop_item(&mut self, now: u64) -> (r: Option<T>)
        ensures
            has_ready(old(self)@, now) ==> {
                let k = first_due_index(old(self)@);
                &&& r == Some(old(self)@[k].1)
                &&& final(self)@ == old(self)@.remove(k)
            },
            !has_ready(old(self)@, now) ==> r is None && final(self)@ == old(self)@,
    {
        proof {
            lemma_ready_iff_first_due(self@, now);
            if self@.len() > 0 {
                lemma_first_due_index(self@);
            }
        }
        if self.entries.len() == 0 {
            return None;
        }
        let k = self.first_due();
        if self.entries[k].0 <= now {
            let (_, item) = self.entries.remove(k);
            Some(item)
        } else {
            None
        }
    }
}

} // verus!
