use vstd::prelude::*;

verus! {

/// One pending expiration: the id it will fire and its absolute deadline on
/// the caller's monotonic clock, in milliseconds.
pub struct TimerEntry {
    pub id: u128,
    pub deadline: u64,
}

/// Whether some entry carries `id`.
pub open spec fn tq_contains(s: Seq<TimerEntry>, id: u128) -> bool {
    exists|k: int| 0 <= k < s.len() && (#[trigger] s[k]).id == id
}

/// The position of the entry carrying `id`; meaningful when `tq_contains`
/// holds and the ids are distinct.
pub open spec fn tq_index_of(s: Seq<TimerEntry>, id: u128) -> int {
    choose|k: int| 0 <= k < s.len() && (#[trigger] s[k]).id == id
}

/// The deadline of the entry carrying `id`.
pub open spec fn tq_deadline(s: Seq<TimerEntry>, id: u128) -> u64 {
    s[tq_index_of(s, id)].deadline
}

/// No two entries carry the same id.
pub open spec fn tq_distinct(s: Seq<TimerEntry>) -> bool {
    forall|i: int, j: int|
        0 <= i < s.len() && 0 <= j < s.len() && i != j ==> (#[trigger] s[i]).id != (
        #[trigger] s[j]).id
}

/// With distinct ids, the entry at `k` is the one its id is looked up to.
pub proof fn lemma_tq_lookup(s: Seq<TimerEntry>, k: int)
    requires
        tq_distinct(s),
        0 <= k < s.len(),
    ensures
        tq_contains(s, s[k].id),
        tq_index_of(s, s[k].id) == k,
        tq_deadline(s, s[k].id) == s[k].deadline,
{
    assert(tq_contains(s, s[k].id));
    let k2 = tq_index_of(s, s[k].id);
    if k2 != k {
        assert(s[k2].id != s[k].id);
    }
}

/// Monotonic-deadline timer queue: entries wait here until they fire or are
/// cancelled, and fire in deadline order.  Time itself is the caller's: every
/// operation takes the current instant as a plain number, so that what fires
/// when is decided — and specified — here, while the waiting happens outside.
pub struct TimerQueue {
    entries: Vec<TimerEntry>,
    closed: bool,
}

impl TimerQueue {
    /// The pending entries, in insertion order.
    pub closed spec fn entries_view(self) -> Seq<TimerEntry> {
        self.entries@
    }

    /// Whether `close` has been called.
    pub closed spec fn is_closed(self) -> bool {
        self.closed
    }

    /// Every pending id is pending once.
    pub open spec fn wf(self) -> bool {
        tq_distinct(self.entries_view())
    }

    /// An empty, open queue.
    pub fn new() -> (q: TimerQueue)
        ensures
            q.wf(),
            q.entries_view() == Seq::<TimerEntry>::empty(),
            !q.is_closed(),
    {
        TimerQueue { entries: Vec::new(), closed: false }
    }

    /// Whether `close` has been called, for the reaper's loop.
    pub fn closed(&self) -> (r: bool)
        ensures
            r == self.is_closed(),
    {
        self.closed
    }

    /// Number of pending entries.
    pub fn len(&self) -> (n: usize)
        ensures
            n == self.entries_view().len(),
    {
        self.entries.len()
    }

    /// Whether an entry for `id` is pending.
    pub fn contains(&self, id: u128) -> (r: bool)
        ensures
            r == tq_contains(self.entries_view(), id),
    {
        let n = self.entries.len();
        for i in 0..n
            invariant
                n == self.entries@.len(),
                forall|k: int| 0 <= k < i ==> (#[trigger] self.entries@[k]).id != id,
        {
            if self.entries[i].id == id {
                return true;
            }
        }
        false
    }

    /// Schedules `id` to fire at `deadline`.  Nothing happens when `id` is
    /// already pending; the caller resets instead.
    pub fn insert(&mut self, id: u128, deadline: u64) -> (added: bool)
        requires
            old(self).wf(),
        ensures
            final(self).wf(),
            final(self).is_closed() == old(self).is_closed(),
            added == !tq_contains(old(self).entries_view(), id),
            added ==> final(self).entries_view() == old(self).entries_view().push(
                TimerEntry { id, deadline },
            ),
            added ==> tq_contains(final(self).entries_view(), id) && tq_deadline(
                final(self).entries_view(),
                id,
            ) == deadline,
            !added ==> final(self).entries_view() == old(self).entries_view(),
            forall|other: u128|
                other != id ==> #[trigger] tq_contains(final(self).entries_view(), other)
                    == tq_contains(old(self).entries_view(), other),
            forall|other: u128|
                other != id && tq_contains(old(self).entries_view(), other)
                    ==> #[trigger] tq_deadline(final(self).entries_view(), other)
                    == tq_deadline(old(self).entries_view(), other),
    {
        if self.contains(id) {
            return false;
        }
        let ghost pre = self.entries@;
        self.entries.push(TimerEntry { id, deadline });
        proof {
            self.lemma_after_push(pre, id, deadline);
        }
        true
    }

    /// Cancels the pending firing of `id` and schedules a fresh one at
    /// `new_deadline`, atomically: after this returns no firing with the old
    /// deadline can be delivered.  Returns whether `id` was pending; every
    /// other entry is untouched.
    pub fn reset(&mut self, id: u128, new_deadline: u64) -> (found: bool)
        requires
            old(self).wf(),
        ensures
            final(self).wf(),
            final(self).is_closed() == old(self).is_closed(),
            found == tq_contains(old(self).entries_view(), id),
            !found ==> final(self).entries_view() == old(self).entries_view(),
            found ==> tq_contains(final(self).entries_view(), id) && tq_deadline(
                final(self).entries_view(),
                id,
            ) == new_deadline,
            forall|other: u128|
                other != id ==> #[trigger] tq_contains(final(self).entries_view(), other)
                    == tq_contains(old(self).entries_view(), other),
            forall|other: u128|
                other != id && tq_contains(old(self).entries_view(), other)
                    ==> #[trigger] tq_deadline(final(self).entries_view(), other)
                    == tq_deadline(old(self).entries_view(), other),
    {
        match self.remove_entry(id) {
            Some(_) => {
                let ghost mid = self.entries@;
                self.entries.push(TimerEntry { id, deadline: new_deadline });
                proof {
                    self.lemma_after_push(mid, id, new_deadline);
                }
                true
            },
            None => false,
        }
    }

    /// Removes the pending entry for `id`, returning its deadline.
    pub fn cancel(&mut self, id: u128) -> (r: Option<u64>)
        requires
            old(self).wf(),
        ensures
            final(self).wf(),
            final(self).is_closed() == old(self).is_closed(),
            r.is_some() == tq_contains(old(self).entries_view(), id),
            r.is_none() ==> final(self).entries_view() == old(self).entries_view(),
            r.is_some() ==> r == Some(tq_deadline(old(self).entries_view(), id))
                && !tq_contains(final(self).entries_view(), id)
                && final(self).entries_view().len() + 1 == old(self).entries_view().len(),
            forall|other: u128|
                other != id ==> #[trigger] tq_contains(final(self).entries_view(), other)
                    == tq_contains(old(self).entries_view(), other),
            forall|other: u128|
                other != id && tq_contains(old(self).entries_view(), other)
                    ==> #[trigger] tq_deadline(final(self).entries_view(), other)
                    == tq_deadline(old(self).entries_view(), other),
    {
        self.remove_entry(id)
    }

    /// Closes the queue: nothing fires any more.
    pub fn close(&mut self)
        requires
            old(self).wf(),
        ensures
            final(self).wf(),
            final(self).is_closed(),
            final(self).entries_view() == old(self).entries_view(),
    {
        self.closed = true;
    }

    /// The earliest pending deadline, if any — what a caller sleeps until.
    pub fn next_deadline(&self) -> (r: Option<u64>)
        ensures
            r.is_none() == (self.entries_view().len() == 0),
            r.is_some() ==> exists|k: int|
                0 <= k < self.entries_view().len() && (#[trigger] self.entries_view()[k]).deadline
                    == r.unwrap(),
            r.is_some() ==> forall|k: int|
                0 <= k < self.entries_view().len() ==> r.unwrap() <= (
                #[trigger] self.entries_view()[k]).deadline,
    {
        let n = self.entries.len();
        if n == 0 {
            return None;
        }
        let mut best: u64 = self.entries[0].deadline;
        for i in 1..n
            invariant
                n == self.entries@.len(),
                1 <= i <= n,
                exists|k: int|
                    0 <= k < n && (#[trigger] self.entries@[k]).deadline == best,
                forall|k: int|
                    0 <= k < i ==> best <= (#[trigger] self.entries@[k]).deadline,
        {
            if self.entries[i].deadline < best {
                best = self.entries[i].deadline;
            }
        }
        proof {
            let w = choose|k: int|
                0 <= k < self.entries@.len() && (#[trigger] self.entries@[k]).deadline == best;
            assert(self.entries_view()[w].deadline == best);
        }
        Some(best)
    }

    /// Delivers the id of the earliest entry whose deadline has elapsed at
    /// `now`, removing it; among equal deadlines the earliest inserted fires
    /// first.  Returns nothing when the queue is closed or no entry is due —
    /// entries with later deadlines are never delivered early.
    pub fn pop_due(&mut self, now: u64) -> (r: Option<u128>)
        requires
            old(self).wf(),
        ensures
            final(self).wf(),
            final(self).is_closed() == old(self).is_closed(),
            r.is_none() ==> final(self).entries_view() == old(self).entries_view(),
            r.is_none() ==> old(self).is_closed() || forall|k: int|
                0 <= k < old(self).entries_view().len() ==> (#[trigger] old(
                    self,
                ).entries_view()[k]).deadline > now,
            r.is_some() ==> {
                &&& !old(self).is_closed()
                &&& tq_contains(old(self).entries_view(), r.unwrap())
                &&& tq_deadline(old(self).entries_view(), r.unwrap()) <= now
                &&& !tq_contains(final(self).entries_view(), r.unwrap())
                &&& final(self).entries_view().len() + 1 == old(self).entries_view().len()
                &&& forall|k: int|
                    0 <= k < old(self).entries_view().len() ==> tq_deadline(
                        old(self).entries_view(),
                        r.unwrap(),
                    ) <= (#[trigger] old(self).entries_view()[k]).deadline
            },
            forall|other: u128|
                r != Some(other) ==> #[trigger] tq_contains(final(self).entries_view(), other)
                    == tq_contains(old(self).entries_view(), other),
            forall|other: u128|
                r != Some(other) && tq_contains(old(self).entries_view(), other)
                    ==> #[trigger] tq_deadline(final(self).entries_view(), other)
                    == tq_deadline(old(self).entries_view(), other),
    {
        if self.closed {
            return None;
        }
        let n = self.entries.len();
        if n == 0 {
            return None;
        }
        let mut best: usize = 0;
        for i in 1..n
            invariant
                n == self.entries@.len(),
                1 <= i <= n,
                0 <= best < i,
                forall|k: int|
                    0 <= k < i ==> self.entries@[best as int].deadline <= (
                    #[trigger] self.entries@[k]).deadline,
        {
            if self.entries[i].deadline < self.entries[best].deadline {
                best = i;
            }
        }
        if self.entries[best].deadline > now {
            return None;
        }
        let ghost pre = self.entries@;
        let fired = self.entries.remove(best);
        proof {
            lemma_tq_lookup(pre, best as int);
            self.lemma_after_remove(pre, best as int);
        }
        Some(fired.id)
    }

    /// After removing position `k` from `pre`, ids stay distinct, `pre[k].id`
    /// is gone, and every other id keeps its deadline.
    proof fn lemma_after_remove(self, pre: Seq<TimerEntry>, k: int)
        requires
            tq_distinct(pre),
            0 <= k < pre.len(),
            self.entries_view() == pre.remove(k),
        ensures
            self.wf(),
            !tq_contains(self.entries_view(), pre[k].id),
            forall|other: u128|
                other != pre[k].id ==> #[trigger] tq_contains(self.entries_view(), other)
                    == tq_contains(pre, other),
            forall|other: u128|
                other != pre[k].id && tq_contains(pre, other) ==> #[trigger] tq_deadline(
                    self.entries_view(),
                    other,
                ) == tq_deadline(pre, other),
    {
        let post = self.entries_view();
        assert forall|i: int, j: int|
            0 <= i < post.len() && 0 <= j < post.len() && i != j implies (
        #[trigger] post[i]).id != (#[trigger] post[j]).id by {
            let i0: int = if i < k {
                i
            } else {
                i + 1
            };
            let j0: int = if j < k {
                j
            } else {
                j + 1
            };
            assert(post[i] == pre[i0] && post[j] == pre[j0]);
        }
        assert forall|i: int| 0 <= i < post.len() implies (#[trigger] post[i]).id != pre[k].id by {
            let i0: int = if i < k {
                i
            } else {
                i + 1
            };
            assert(post[i] == pre[i0] && i0 != k);
        }
        assert forall|other: u128| other != pre[k].id implies #[trigger] tq_contains(post, other)
            == tq_contains(pre, other) by {
            if tq_contains(pre, other) {
                let t = tq_index_of(pre, other);
                let t1: int = if t < k {
                    t
                } else {
                    t - 1
                };
                assert(t != k);
                assert(post[t1] == pre[t]);
                assert(tq_contains(post, other));
            }
            if tq_contains(post, other) {
                let t = tq_index_of(post, other);
                let t0: int = if t < k {
                    t
                } else {
                    t + 1
                };
                assert(post[t] == pre[t0]);
                assert(tq_contains(pre, other));
            }
        }
        assert forall|other: u128|
            other != pre[k].id && tq_contains(pre, other) implies #[trigger] tq_deadline(
            post,
            other,
        ) == tq_deadline(pre, other) by {
            let t = tq_index_of(pre, other);
            lemma_tq_lookup(pre, t);
            let t1: int = if t < k {
                t
            } else {
                t - 1
            };
            assert(t != k);
            assert(post[t1] == pre[t]);
            lemma_tq_lookup(post, t1);
        }
    }

    /// After pushing a fresh entry for `id` onto `mid`, which does not
    /// contain it, ids stay distinct, `id` carries `deadline`, and every
    /// other id keeps its deadline.
    proof fn lemma_after_push(self, mid: Seq<TimerEntry>, id: u128, deadline: u64)
        requires
            tq_distinct(mid),
            !tq_contains(mid, id),
            self.entries_view() == mid.push(TimerEntry { id, deadline }),
        ensures
            self.wf(),
            tq_contains(self.entries_view(), id),
            tq_deadline(self.entries_view(), id) == deadline,
            forall|other: u128|
                other != id ==> #[trigger] tq_contains(self.entries_view(), other) == tq_contains(
                    mid,
                    other,
                ),
            forall|other: u128|
                other != id && tq_contains(mid, other) ==> #[trigger] tq_deadline(
                    self.entries_view(),
                    other,
                ) == tq_deadline(mid, other),
    {
        let post = self.entries_view();
        assert forall|i: int, j: int|
            0 <= i < post.len() && 0 <= j < post.len() && i != j implies (
        #[trigger] post[i]).id != (#[trigger] post[j]).id by {
            if i < mid.len() && j < mid.len() {
                assert(post[i] == mid[i] && post[j] == mid[j]);
            } else if i < mid.len() {
                assert(post[i] == mid[i] && post[j].id == id);
            } else if j < mid.len() {
                assert(post[i].id == id && post[j] == mid[j]);
            }
        }
        assert(post[post.len() - 1].id == id);
        lemma_tq_lookup(post, post.len() - 1);
        assert forall|other: u128| other != id implies #[trigger] tq_contains(post, other)
            == tq_contains(mid, other) by {
            if tq_contains(mid, other) {
                let t = tq_index_of(mid, other);
                assert(post[t] == mid[t]);
                assert(tq_contains(post, other));
            }
            if tq_contains(post, other) {
                let t = tq_index_of(post, other);
                assert(t < mid.len() && post[t] == mid[t]);
                assert(tq_contains(mid, other));
            }
        }
        assert forall|other: u128|
            other != id && tq_contains(mid, other) implies #[trigger] tq_deadline(post, other)
            == tq_deadline(mid, other) by {
            let t = tq_index_of(mid, other);
            lemma_tq_lookup(mid, t);
            assert(post[t] == mid[t]);
            lemma_tq_lookup(post, t);
        }
    }

    /// Removes the entry carrying `id`, returning its deadline.
    fn remove_entry(&mut self, id: u128) -> (r: Option<u64>)
        requires
            old(self).wf(),
        ensures
            final(self).wf(),
            final(self).is_closed() == old(self).is_closed(),
            r.is_some() == tq_contains(old(self).entries_view(), id),
            r.is_none() ==> final(self).entries_view() == old(self).entries_view(),
            r.is_some() ==> r == Some(tq_deadline(old(self).entries_view(), id))
                && !tq_contains(final(self).entries_view(), id)
                && final(self).entries_view().len() + 1 == old(self).entries_view().len(),
            forall|other: u128|
                other != id ==> #[trigger] tq_contains(final(self).entries_view(), other)
                    == tq_contains(old(self).entries_view(), other),
            forall|other: u128|
                other != id && tq_contains(old(self).entries_view(), other)
                    ==> #[trigger] tq_deadline(final(self).entries_view(), other)
                    == tq_deadline(old(self).entries_view(), other),
    {
        let n = self.entries.len();
        for i in 0..n
            invariant
                n == self.entries@.len(),
                self.entries@ == old(self).entries@,
                tq_distinct(self.entries@),
                self.closed == old(self).closed,
                forall|k: int| 0 <= k < i ==> (#[trigger] self.entries@[k]).id != id,
        {
            if self.entries[i].id == id {
                let ghost pre = self.entries@;
                let fired = self.entries.remove(i);
                proof {
                    lemma_tq_lookup(pre, i as int);
                    self.lemma_after_remove(pre, i as int);
                }
                return Some(fired.deadline);
            }
        }
        None
    }
}

} // verus!
