use vstd::prelude::*;

verus! {

use crate::engine::Matcher;

/// An exclusive binding of one worker to one session, keyed by the engine
/// id stored in the session.
pub struct Lease {
    pub id: u128,
    pub worker: Matcher,
}

/// Whether some lease carries `id`.
pub open spec fn lt_contains(s: Seq<Lease>, id: u128) -> bool {
    exists|k: int| 0 <= k < s.len() && (#[trigger] s[k]).id == id
}

/// The position of the lease carrying `id`; meaningful when `lt_contains`
/// holds and the ids are distinct.
pub open spec fn lt_index_of(s: Seq<Lease>, id: u128) -> int {
    choose|k: int| 0 <= k < s.len() && (#[trigger] s[k]).id == id
}

/// The worker leased under `id`.
pub open spec fn lt_worker(s: Seq<Lease>, id: u128) -> Matcher {
    s[lt_index_of(s, id)].worker
}

/// No two leases carry the same id.
pub open spec fn lt_distinct(s: Seq<Lease>) -> bool {
    forall|i: int, j: int|
        0 <= i < s.len() && 0 <= j < s.len() && i != j ==> (#[trigger] s[i]).id != (
        #[trigger] s[j]).id
}

/// With distinct ids, the lease at `k` is the one its id is looked up to.
pub proof fn lemma_lt_lookup(s: Seq<Lease>, k: int)
    requires
        lt_distinct(s),
        0 <= k < s.len(),
    ensures
        lt_contains(s, s[k].id),
        lt_index_of(s, s[k].id) == k,
        lt_worker(s, s[k].id) == s[k].worker,
{
    assert(lt_contains(s, s[k].id));
    let k2 = lt_index_of(s, s[k].id);
    if k2 != k {
        assert(s[k2].id != s[k].id);
    }
}

/// A property of every leased worker (here: well-formed over the given
/// records) survives any operation that touches at most the lease `changed`
/// and keeps every other id bound to the same worker.
pub proof fn lemma_lease_workers_preserved(
    pre: Seq<Lease>,
    post: Seq<Lease>,
    changed: u128,
    records: Seq<crate::records::EngineInputData>,
)
    requires
        lt_distinct(pre),
        lt_distinct(post),
        forall|k: int|
            0 <= k < pre.len() ==> (#[trigger] pre[k]).worker.wf()
                && pre[k].worker.records_view() == records,
        forall|other: u128|
            other != changed ==> #[trigger] lt_contains(post, other) == lt_contains(pre, other),
        forall|other: u128|
            other != changed && lt_contains(pre, other) ==> #[trigger] lt_worker(post, other)
                == lt_worker(pre, other),
        lt_contains(post, changed) ==> lt_worker(post, changed).wf() && lt_worker(
            post,
            changed,
        ).records_view() == records,
    ensures
        forall|k: int|
            0 <= k < post.len() ==> (#[trigger] post[k]).worker.wf()
                && post[k].worker.records_view() == records,
{
    assert forall|k: int| 0 <= k < post.len() implies (#[trigger] post[k]).worker.wf()
        && post[k].worker.records_view() == records by {
        lemma_lt_lookup(post, k);
        let id = post[k].id;
        if id == changed {
            assert(lt_contains(post, changed));
        } else {
            assert(lt_contains(post, id));
            assert(lt_contains(pre, id));
            let t = lt_index_of(pre, id);
            assert(0 <= t < pre.len() && pre[t].id == id);
            lemma_lt_lookup(pre, t);
            assert(lt_worker(post, id) == pre[t].worker);
        }
    }
}

/// Owns the engine-id → lease mapping.  A session's worker is taken out of
/// the table for the duration of a request and put back afterwards, so a
/// concurrent reclaim finds the id absent rather than a half-used lease.
pub struct LeaseTable {
    entries: Vec<Lease>,
}

impl LeaseTable {
    /// The active leases, in binding order.
    pub closed spec fn leases_view(self) -> Seq<Lease> {
        self.entries@
    }

    /// Every id is bound at most once.
    pub open spec fn wf(self) -> bool {
        lt_distinct(self.leases_view())
    }

    /// An empty table.
    pub fn new() -> (t: LeaseTable)
        ensures
            t.wf(),
            t.leases_view() == Seq::<Lease>::empty(),
    {
        LeaseTable { entries: Vec::new() }
    }

    /// Number of active leases.
    pub fn len(&self) -> (n: usize)
        ensures
            n == self.leases_view().len(),
    {
        self.entries.len()
    }

    /// Whether `id` is bound.
    pub fn contains(&self, id: u128) -> (r: bool)
        ensures
            r == lt_contains(self.leases_view(), id),
    {
        let n = self.entries.len();
        for i in 0..n
            invariant
                n == self.entries@.len(),
                forall|k: int| 0 <= k < i ==> (#[trigger] self.entries@[k]).id != id,
        {
            if self.entries[i].id == id {
                return true;
            }
        }
        false
    }

    /// Binds `worker` under the fresh id `id`.
    pub fn insert(&mut self, id: u128, worker: Matcher)
        requires
            old(self).wf(),
            !lt_contains(old(self).leases_view(), id),
        ensures
            final(self).wf(),
            final(self).leases_view() == old(self).leases_view().push(Lease { id, worker }),
            lt_contains(final(self).leases_view(), id),
            lt_worker(final(self).leases_view(), id) == worker,
            forall|other: u128|
                other != id ==> #[trigger] lt_contains(final(self).leases_view(), other)
                    == lt_contains(old(self).leases_view(), other),
            forall|other: u128|
                other != id && lt_contains(old(self).leases_view(), other)
                    ==> #[trigger] lt_worker(final(self).leases_view(), other) == lt_worker(
                    old(self).leases_view(),
                    other,
                ),
    {
        let ghost pre = self.entries@;
        self.entries.push(Lease { id, worker });
        proof {
            let post = self.entries@;
            assert forall|i: int, j: int|
                0 <= i < post.len() && 0 <= j < post.len() && i != j implies (
            #[trigger] post[i]).id != (#[trigger] post[j]).id by {
                if i < pre.len() && j < pre.len() {
                } else if i < pre.len() {
                    assert(post[j].id == id);
                } else if j < pre.len() {
                    assert(post[i].id == id);
                }
            }
            assert(post[post.len() - 1].id == id);
            lemma_lt_lookup(post, post.len() - 1);
            assert forall|other: u128| other != id implies #[trigger] lt_contains(post, other)
                == lt_contains(pre, other) by {
                if lt_contains(pre, other) {
                    let t = lt_index_of(pre, other);
                    assert(post[t] == pre[t]);
                    assert(lt_contains(post, other));
                }
                if lt_contains(post, other) {
                    let t = lt_index_of(post, other);
                    assert(t < pre.len() && post[t] == pre[t]);
                    assert(lt_contains(pre, other));
                }
            }
            assert forall|other: u128|
                other != id && lt_contains(pre, other) implies #[trigger] lt_worker(post, other)
                == lt_worker(pre, other) by {
                let t = lt_index_of(pre, other);
                lemma_lt_lookup(pre, t);
                assert(post[t] == pre[t]);
                lemma_lt_lookup(post, t);
            }
        }
    }

    /// Removes and returns the lease bound under `id`: the reclaim of the
    /// reaper, and the take half of a request's take-then-reinsert.  Returns
    /// nothing when `id` is not bound — in particular when a request holds
    /// the lease at the moment a reclaim comes in.
    pub fn remove(&mut self, id: u128) -> (r: Option<Matcher>)
        requires
            old(self).wf(),
        ensures
            final(self).wf(),
            r.is_some() == lt_contains(old(self).leases_view(), id),
            r.is_none() ==> final(self).leases_view() == old(self).leases_view(),
            r.is_some() ==> r == Some(lt_worker(old(self).leases_view(), id))
                && !lt_contains(final(self).leases_view(), id)
                && final(self).leases_view().len() + 1 == old(self).leases_view().len(),
            r.is_some() ==> exists|k: int|
                0 <= k < old(self).leases_view().len() && (#[trigger] old(self).leases_view()[k]).id == id
                && final(self).leases_view() == old(self).leases_view().remove(k),
            forall|other: u128|
                other != id ==> #[trigger] lt_contains(final(self).leases_view(), other)
                    == lt_contains(old(self).leases_view(), other),
            forall|other: u128|
                other != id && lt_contains(old(self).leases_view(), other)
                    ==> #[trigger] lt_worker(final(self).leases_view(), other) == lt_worker(
                    old(self).leases_view(),
                    other,
                ),
    {
        let n = self.entries.len();
        for i in 0..n
            invariant
                n == self.entries@.len(),
                self.entries@ == old(self).entries@,
                lt_distinct(self.entries@),
                forall|k: int| 0 <= k < i ==> (#[trigger] self.entries@[k]).id != id,
        {
            if self.entries[i].id == id {
                let ghost pre = self.entries@;
                let lease = self.entries.remove(i);
                proof {
                    lemma_lt_lookup(pre, i as int);
                    self.lemma_after_remove(pre, i as int);
                }
                return Some(lease.worker);
            }
        }
        None
    }

    /// After removing position `k` from `pre`, ids stay distinct, `pre[k].id`
    /// is gone, and every other id keeps its worker.
    proof fn lemma_after_remove(self, pre: Seq<Lease>, k: int)
        requires
            lt_distinct(pre),
            0 <= k < pre.len(),
            self.leases_view() == pre.remove(k),
        ensures
            self.wf(),
            !lt_contains(self.leases_view(), pre[k].id),
            forall|other: u128|
                other != pre[k].id ==> #[trigger] lt_contains(self.leases_view(), other)
                    == lt_contains(pre, other),
            forall|other: u128|
                other != pre[k].id && lt_contains(pre, other) ==> #[trigger] lt_worker(
                    self.leases_view(),
                    other,
                ) == lt_worker(pre, other),
    {
        let post = self.leases_view();
        assert forall|i: int, j: int|
            0 <= i < post.len() && 0 <= j < post.len() && i != j implies (
        #[trigger] post[i]).id != (#[trigger] post[j]).id by {
            let i0: int = if i < k {
                i
            } else {
                i + 1
            };
            let j0: int = if j < k {
                j
            } else {
                j + 1
            };
            assert(post[i] == pre[i0] && post[j] == pre[j0]);
        }
        assert forall|i: int| 0 <= i < post.len() implies (#[trigger] post[i]).id != pre[k].id by {
            let i0: int = if i < k {
                i
            } else {
                i + 1
            };
            assert(post[i] == pre[i0] && i0 != k);
        }
        assert forall|other: u128| other != pre[k].id implies #[trigger] lt_contains(post, other)
            == lt_contains(pre, other) by {
            if lt_contains(pre, other) {
                let t = lt_index_of(pre, other);
                let t1: int = if t < k {
                    t
                } else {
                    t - 1
                };
                assert(t != k);
                assert(post[t1] == pre[t]);
                assert(lt_contains(post, other));
            }
            if lt_contains(post, other) {
                let t = lt_index_of(post, other);
                let t0: int = if t < k {
                    t
                } else {
                    t + 1
                };
                assert(post[t] == pre[t0]);
                assert(lt_contains(pre, other));
            }
        }
        assert forall|other: u128|
            other != pre[k].id && lt_contains(pre, other) implies #[trigger] lt_worker(post, other)
            == lt_worker(pre, other) by {
            let t = lt_index_of(pre, other);
            lemma_lt_lookup(pre, t);
            let t1: int = if t < k {
                t
            } else {
                t - 1
            };
            assert(t != k);
            assert(post[t1] == pre[t]);
            lemma_lt_lookup(post, t1);
        }
    }
}

} // verus!
