use vstd::prelude::*;

verus! {

use crate::binder::{lemma_lease_workers_preserved, lt_contains, lt_worker, LeaseTable};
use crate::engine::{batch_match_spec, match_spec, Matcher};
use crate::fold::folded;
use crate::pool::{PoolStatus, WorkerPool};
use crate::records::{Dataset, EngineInputData};
use crate::timer::{tq_contains, tq_deadline, TimerQueue};

/// Relies on `uuid::Uuid::new_v4`: a freshly drawn random id.  Nothing can
/// be promised of a random value, so nothing is.
#[verifier::external_body]
fn fresh_uuid() -> u128 {
    uuid::Uuid::new_v4().as_u128()
}

/// What an autocomplete request comes to.
pub enum AutocompleteOutcome {
    /// The query was empty: respond 400 with no matches.
    Rejected,
    /// No worker is free and the pool is at its cap (or, vanishingly
    /// unlikely, no fresh engine id could be drawn): nothing changed; the
    /// caller waits and tries again.
    Busy,
    /// Matches computed.  `engine_id` names the lease and belongs in the
    /// session under the engine key; `fresh_session` says whether it is a
    /// newly created lease rather than the one the session already named.
    Matched { matches: Vec<EngineInputData>, engine_id: u128, fresh_session: bool },
}

impl AutocompleteOutcome {
    /// The engine id this outcome touched, or `fallback` when none was.
    pub open spec fn engine_id_or(self, fallback: u128) -> u128 {
        match self {
            AutocompleteOutcome::Matched { engine_id, .. } => engine_id,
            _ => fallback,
        }
    }
}

/// What one reaper step comes to.
pub enum ReapOutcome {
    /// No pending timer was due: nothing changed.
    Idle,
    /// A timer fired and its lease was still bound: the worker went back to
    /// the pool.
    Reclaimed { engine_id: u128 },
    /// A timer fired but its lease was already gone — the firing is stale
    /// and discarded; neither the pool nor any lease was touched.
    Stale { engine_id: u128 },
}

impl ReapOutcome {
    /// The engine id this outcome touched, or `fallback` when none was.
    pub open spec fn engine_id_or(self, fallback: u128) -> u128 {
        match self {
            ReapOutcome::Reclaimed { engine_id } => engine_id,
            ReapOutcome::Stale { engine_id } => engine_id,
            ReapOutcome::Idle => fallback,
        }
    }
}


/// What a batch fuzzy-match request comes to.
pub enum BatchOutcome {
    /// No queries, or a zero result limit: respond 400 with no matches.
    Rejected,
    /// No worker is free and the pool is at its cap: nothing changed; the
    /// caller waits and tries again.
    Busy,
    /// One ranked, truncated result list per query.
    Matched { matches: Vec<Vec<EngineInputData>> },
}

/// The ghost tags of the leased workers are pairwise distinct: no two
/// leases hold the same worker.
pub open spec fn lease_tags_distinct(s: Seq<crate::binder::Lease>) -> bool {
    forall|i: int, j: int|
        0 <= i < s.len() && 0 <= j < s.len() && i != j ==> (#[trigger] s[i]).worker.tag_view()
            != (#[trigger] s[j]).worker.tag_view()
}

/// Every leased worker's ghost tag lies below `bound`.
pub open spec fn lease_tags_below(s: Seq<crate::binder::Lease>, bound: int) -> bool {
    forall|i: int| 0 <= i < s.len() ==> (#[trigger] s[i]).worker.tag_view() < bound
}

/// No leased worker shares its ghost tag with a pooled worker: a worker
/// never sits in the pool and in a lease at once.
pub open spec fn lease_tags_disjoint(s: Seq<crate::binder::Lease>, pool: Seq<Matcher>) -> bool {
    forall|i: int, k: int|
        0 <= i < s.len() && 0 <= k < pool.len() ==> (#[trigger] s[i]).worker.tag_view() != (
        #[trigger] pool[k]).tag_view()
}

/// Unbinding one lease keeps the tag invariants and frees that worker's
/// tag from the table.
proof fn lemma_tags_after_lease_remove(
    pre: Seq<crate::binder::Lease>,
    k: int,
    pool: Seq<Matcher>,
    bound: int,
)
    requires
        lease_tags_distinct(pre),
        lease_tags_below(pre, bound),
        lease_tags_disjoint(pre, pool),
        0 <= k < pre.len(),
    ensures
        lease_tags_distinct(pre.remove(k)),
        lease_tags_below(pre.remove(k), bound),
        lease_tags_disjoint(pre.remove(k), pool),
        forall|i: int|
            0 <= i < pre.remove(k).len() ==> (#[trigger] pre.remove(k)[i]).worker.tag_view()
                != pre[k].worker.tag_view(),
{
    let post = pre.remove(k);
    assert forall|i: int, j: int|
        0 <= i < post.len() && 0 <= j < post.len() && i != j implies (
    #[trigger] post[i]).worker.tag_view() != (#[trigger] post[j]).worker.tag_view() by {
        let i0: int = if i < k {
            i
        } else {
            i + 1
        };
        let j0: int = if j < k {
            j
        } else {
            j + 1
        };
        assert(post[i] == pre[i0] && post[j] == pre[j0]);
    }
    assert forall|i: int| 0 <= i < post.len() implies (#[trigger] post[i]).worker.tag_view()
        < bound && post[i].worker.tag_view() != pre[k].worker.tag_view() by {
        let i0: int = if i < k {
            i
        } else {
            i + 1
        };
        assert(post[i] == pre[i0] && i0 != k);
    }
    assert forall|i: int, t: int|
        0 <= i < post.len() && 0 <= t < pool.len() implies (#[trigger] post[i]).worker.tag_view()
        != (#[trigger] pool[t]).tag_view() by {
        let i0: int = if i < k {
            i
        } else {
            i + 1
        };
        assert(post[i] == pre[i0]);
    }
}

/// Binding one more worker keeps the tag invariants, provided its tag is
/// fresh to the table and to the pool.
proof fn lemma_tags_after_lease_push(
    mid: Seq<crate::binder::Lease>,
    l: crate::binder::Lease,
    pool: Seq<Matcher>,
    bound: int,
)
    requires
        lease_tags_distinct(mid),
        lease_tags_below(mid, bound),
        lease_tags_disjoint(mid, pool),
        l.worker.tag_view() < bound,
        forall|i: int|
            0 <= i < mid.len() ==> (#[trigger] mid[i]).worker.tag_view() != l.worker.tag_view(),
        forall|k: int| 0 <= k < pool.len() ==> (#[trigger] pool[k]).tag_view() != l.worker.tag_view(),
    ensures
        lease_tags_distinct(mid.push(l)),
        lease_tags_below(mid.push(l), bound),
        lease_tags_disjoint(mid.push(l), pool),
{
    let post = mid.push(l);
    assert forall|i: int, j: int|
        0 <= i < post.len() && 0 <= j < post.len() && i != j implies (
    #[trigger] post[i]).worker.tag_view() != (#[trigger] post[j]).worker.tag_view() by {
        if i < mid.len() && j < mid.len() {
            assert(post[i] == mid[i] && post[j] == mid[j]);
        } else if i < mid.len() {
            assert(post[i] == mid[i] && post[j] == l);
        } else if j < mid.len() {
            assert(post[i] == l && post[j] == mid[j]);
        }
    }
    assert forall|i: int| 0 <= i < post.len() implies (#[trigger] post[i]).worker.tag_view()
        < bound by {
        if i < mid.len() {
            assert(post[i] == mid[i]);
        } else {
            assert(post[i] == l);
        }
    }
    assert forall|i: int, t: int|
        0 <= i < post.len() && 0 <= t < pool.len() implies (#[trigger] post[i]).worker.tag_view()
        != (#[trigger] pool[t]).tag_view() by {
        if i < mid.len() {
            assert(post[i] == mid[i]);
        } else {
            assert(post[i] == l);
        }
    }
}

/// Handing the last pooled worker out keeps the leases disjoint from the
/// rest of the pool, and frees that worker's tag from the pool.
proof fn lemma_tags_pool_shrunk(s: Seq<crate::binder::Lease>, pool: Seq<Matcher>)
    requires
        lease_tags_disjoint(s, pool),
        pool.len() > 0,
    ensures
        lease_tags_disjoint(s, pool.drop_last()),
        forall|i: int|
            0 <= i < s.len() ==> (#[trigger] s[i]).worker.tag_view() != pool.last().tag_view(),
{
    let post = pool.drop_last();
    assert forall|i: int, t: int|
        0 <= i < s.len() && 0 <= t < post.len() implies (#[trigger] s[i]).worker.tag_view() != (
    #[trigger] post[t]).tag_view() by {
        assert(post[t] == pool[t]);
    }
    assert forall|i: int| 0 <= i < s.len() implies (#[trigger] s[i]).worker.tag_view()
        != pool.last().tag_view() by {
        assert(pool[pool.len() - 1] == pool.last());
    }
}

/// Returning a worker whose tag is fresh to the table keeps the leases
/// disjoint from the pool.
proof fn lemma_tags_pool_grown(s: Seq<crate::binder::Lease>, pool: Seq<Matcher>, m: Matcher)
    requires
        lease_tags_disjoint(s, pool),
        forall|i: int| 0 <= i < s.len() ==> (#[trigger] s[i]).worker.tag_view() != m.tag_view(),
    ensures
        lease_tags_disjoint(s, pool.push(m)),
{
    let post = pool.push(m);
    assert forall|i: int, t: int|
        0 <= i < s.len() && 0 <= t < post.len() implies (#[trigger] s[i]).worker.tag_view() != (
    #[trigger] post[t]).tag_view() by {
        if t < pool.len() {
            assert(post[t] == pool[t]);
        } else {
            assert(post[t] == m);
        }
    }
}

/// One worker-pool ecosystem: the pool, the session leases drawn from it,
/// and the expiry timers that reclaim them.  The service runs two — one for
/// session-bound autocomplete, one general-purpose — that share nothing.
///
/// All operations take the current instant `now` (milliseconds on the
/// caller's monotonic clock) as a plain value: deciding what expires when
/// is done and specified here, while clocks and waiting live with the
/// caller.
pub struct Ecosystem {
    pub pool: WorkerPool,
    pub leases: LeaseTable,
    pub timers: TimerQueue,
    /// How long a lease lives without activity, in milliseconds.
    pub engine_expiry_ms: u64,
}

impl Ecosystem {
    /// Pool, leases and timers are each sound; every leased worker ranks
    /// the pool's dataset; the pool's count conservation extends to the
    /// leases, so pooled plus leased workers never exceed what was created;
    /// and the ghost worker tags show that the pool and the lease table
    /// never hold the same worker, nor two leases one worker.
    pub open spec fn wf(self) -> bool {
        &&& self.pool.wf()
        &&& self.leases.wf()
        &&& self.timers.wf()
        &&& self.pool.available_view().len() + self.leases.leases_view().len()
            <= self.pool.created()
        &&& forall|k: int|
            0 <= k < self.leases.leases_view().len() ==> (#[trigger] self.leases.leases_view()[k]).worker.wf()
                && self.leases.leases_view()[k].worker.records_view()
                == self.pool.dataset_view()
        &&& lease_tags_distinct(self.leases.leases_view())
        &&& lease_tags_below(self.leases.leases_view(), self.pool.created())
        &&& lease_tags_disjoint(self.leases.leases_view(), self.pool.available_view())
    }

    /// The fixed parameters no operation changes.
    pub open spec fn same_config(self, other: Ecosystem) -> bool {
        &&& other.engine_expiry_ms == self.engine_expiry_ms
        &&& other.pool.dataset_view() == self.pool.dataset_view()
        &&& other.pool.capacity() == self.pool.capacity()
        &&& other.pool.prewarmed() == self.pool.prewarmed()
    }

    /// Nothing observable changed.
    pub open spec fn unchanged(self, other: Ecosystem) -> bool {
        &&& self.same_config(other)
        &&& other.pool.available_view() == self.pool.available_view()
        &&& other.pool.created() == self.pool.created()
        &&& other.leases.leases_view() == self.leases.leases_view()
        &&& other.timers.entries_view() == self.timers.entries_view()
        &&& other.timers.is_closed() == self.timers.is_closed()
    }

    /// Number of active leases.
    pub fn active_leases(&self) -> (n: usize)
        ensures
            n == self.leases.leases_view().len(),
    {
        self.leases.len()
    }

    /// The pool's counters, for observability.
    pub fn pool_status(&self) -> (s: PoolStatus)
        requires
            self.wf(),
        ensures
            s.available == self.pool.available_view().len(),
            s.in_use == self.pool.in_use(),
            s.capacity == self.pool.capacity(),
    {
        self.pool.status()
    }

    /// When the earliest pending lease expires — what the reaper sleeps
    /// until.
    pub fn next_deadline(&self) -> (r: Option<u64>)
        ensures
            r.is_none() == (self.timers.entries_view().len() == 0),
            r.is_some() ==> forall|k: int|
                0 <= k < self.timers.entries_view().len() ==> r.unwrap() <= (
                #[trigger] self.timers.entries_view()[k]).deadline,
    {
        self.timers.next_deadline()
    }

    /// The session-affine autocomplete step.  `engine_key` is the engine id
    /// the session carries, if any; `now` is the current instant.  An empty
    /// query is rejected with nothing changed.  A session whose id is bound
    /// runs its own leased worker and pushes its expiry out by the lease
    /// lifetime; a session with no id — or one whose lease is gone, after a
    /// restart or a reap — is treated as new: a worker is acquired, matched,
    /// and bound under a fresh id, with a fresh expiry timer.  `Busy` means
    /// the pool was dry at its cap (or, with vanishing probability, no
    /// fresh id could be drawn): nothing changed, the caller retries.
    pub fn autocomplete(&mut self, engine_key: Option<u128>, query: &String, now: u64) -> (r:
        AutocompleteOutcome)
        requires
            old(self).wf(),
            now + old(self).engine_expiry_ms <= u64::MAX,
        ensures
            final(self).wf(),
            old(self).same_config(*final(self)),
            final(self).timers.is_closed() == old(self).timers.is_closed(),
            (r is Rejected) <==> query@.len() == 0,
            r is Rejected ==> old(self).unchanged(*final(self)),
            r is Busy ==> old(self).unchanged(*final(self)) && ((old(self).pool.available_view().len() == 0 && old(self).pool.created() == old(self).pool.capacity()) || old(self).leases.leases_view().len() > 0 || old(self).timers.entries_view().len() > 0),
            r matches AutocompleteOutcome::Matched { matches, engine_id, fresh_session } ==> {
                &&& matches@ == match_spec(old(self).pool.dataset_view(), query@)
                &&& matches@.len() <= 10
                &&& lt_contains(final(self).leases.leases_view(), engine_id)
                &&& lt_worker(final(self).leases.leases_view(), engine_id).prev_pattern_view()
                    == folded(query@)
                &&& tq_contains(final(self).timers.entries_view(), engine_id)
                &&& tq_deadline(final(self).timers.entries_view(), engine_id) == now + old(self).engine_expiry_ms
                &&& (fresh_session ==> !lt_contains(old(self).leases.leases_view(), engine_id)
                    && final(self).leases.leases_view().len() == old(self).leases.leases_view().len() + 1 && final(self).pool.in_use() == old(self).pool.in_use() + 1)
                &&& (!fresh_session ==> engine_key == Some(engine_id) && lt_contains(
                    old(self).leases.leases_view(),
                    engine_id,
                ) && final(self).leases.leases_view().len() == old(self).leases.leases_view().len() && final(self).pool.available_view() == old(self).pool.available_view() && final(self).pool.created() == old(self).pool.created()
                    // session affinity: the worker that served this request
                    // is the very one the session already leased
                    && lt_worker(final(self).leases.leases_view(), engine_id).tag_view()
                    == lt_worker(old(self).leases.leases_view(), engine_id).tag_view())
            },
            // a bound session is owed a match under its own id
            engine_key matches Some(sid) ==> ((query@.len() > 0 && lt_contains(
                old(self).leases.leases_view(),
                sid,
            )) ==> (r matches AutocompleteOutcome::Matched { engine_id, fresh_session, .. }
                && engine_id == sid && !fresh_session)),
            // every other session's lease and timer are untouched
            forall|u: u128|
                u != r.engine_id_or(u128::MAX) && #[trigger] lt_contains(
                    old(self).leases.leases_view(),
                    u,
                ) ==> lt_contains(final(self).leases.leases_view(), u) && lt_worker(
                    final(self).leases.leases_view(),
                    u,
                ) == lt_worker(old(self).leases.leases_view(), u),
            forall|u: u128|
                u != r.engine_id_or(u128::MAX) && #[trigger] tq_contains(
                    old(self).timers.entries_view(),
                    u,
                ) ==> tq_contains(final(self).timers.entries_view(), u) && tq_deadline(
                    final(self).timers.entries_view(),
                    u,
                ) == tq_deadline(old(self).timers.entries_view(), u),
    {
        if query.as_str().is_empty() {
            return AutocompleteOutcome::Rejected;
        }
        match engine_key {
            Some(id) => {
                match self.leases.remove(id) {
                    Some(worker) => {
                        proof {
                            let pre = old(self).leases.leases_view();
                            let t = crate::binder::lt_index_of(pre, id);
                            assert(0 <= t < pre.len() && pre[t].id == id);
                            assert(pre[t].worker.wf());
                            lemma_lease_workers_preserved(
                                pre,
                                self.leases.leases_view(),
                                id,
                                self.pool.dataset_view(),
                            );
                            let k = choose|k: int|
                                0 <= k < pre.len() && (#[trigger] pre[k]).id == id
                                    && self.leases.leases_view() == pre.remove(k);
                            crate::binder::lemma_lt_lookup(pre, k);
                            lemma_tags_after_lease_remove(
                                pre,
                                k,
                                self.pool.available_view(),
                                self.pool.created(),
                            );
                        }
                        self.followup(id, worker, query, now)
                    },
                    None => self.start_fresh(query, now),
                }
            },
            None => self.start_fresh(query, now),
        }
    }

    /// The follow-up half of `autocomplete`: the session's worker, already
    /// taken out of the table, runs the query; the lease's timer is pushed
    /// out; the lease is reinserted.
    fn followup(&mut self, id: u128, worker: Matcher, query: &String, now: u64) -> (r:
        AutocompleteOutcome)
        requires
            old(self).wf(),
            query@.len() > 0,
            now + old(self).engine_expiry_ms <= u64::MAX,
            !lt_contains(old(self).leases.leases_view(), id),
            worker.wf(),
            worker.records_view() == old(self).pool.dataset_view(),
            old(self).pool.available_view().len() + old(self).leases.leases_view().len() + 1
                <= old(self).pool.created(),
            worker.tag_view() < old(self).pool.created(),
            forall|i: int|
                0 <= i < old(self).leases.leases_view().len() ==> (#[trigger] old(self).leases.leases_view()[i]).worker.tag_view() != worker.tag_view(),
            forall|k: int|
                0 <= k < old(self).pool.available_view().len() ==> (#[trigger] old(self).pool.available_view()[k]).tag_view() != worker.tag_view(),
        ensures
            final(self).wf(),
            old(self).same_config(*final(self)),
            final(self).timers.is_closed() == old(self).timers.is_closed(),
            final(self).pool.available_view() == old(self).pool.available_view(),
            final(self).pool.created() == old(self).pool.created(),
            final(self).leases.leases_view().len() == old(self).leases.leases_view().len() + 1,
            r matches AutocompleteOutcome::Matched { matches, engine_id, fresh_session } ==> (
            engine_id == id && !fresh_session && matches@ == match_spec(
                old(self).pool.dataset_view(),
                query@,
            ) && matches@.len() <= 10),
            r is Matched,
            lt_contains(final(self).leases.leases_view(), id),
            lt_worker(final(self).leases.leases_view(), id).prev_pattern_view() == folded(
                query@,
            ),
            lt_worker(final(self).leases.leases_view(), id).tag_view() == worker.tag_view(),
            tq_contains(final(self).timers.entries_view(), id),
            tq_deadline(final(self).timers.entries_view(), id) == now + old(self).engine_expiry_ms,
            forall|u: u128|
                u != id ==> #[trigger] lt_contains(final(self).leases.leases_view(), u)
                    == lt_contains(old(self).leases.leases_view(), u),
            forall|u: u128|
                u != id && lt_contains(old(self).leases.leases_view(), u)
                    ==> #[trigger] lt_worker(final(self).leases.leases_view(), u) == lt_worker(
                    old(self).leases.leases_view(),
                    u,
                ),
            forall|u: u128|
                u != id ==> #[trigger] tq_contains(final(self).timers.entries_view(), u)
                    == tq_contains(old(self).timers.entries_view(), u),
            forall|u: u128|
                u != id && tq_contains(old(self).timers.entries_view(), u)
                    ==> #[trigger] tq_deadline(final(self).timers.entries_view(), u)
                    == tq_deadline(old(self).timers.entries_view(), u),
    {
        let mut worker = worker;
        let matches = worker.fuzzy_match(query);
        let deadline = now + self.engine_expiry_ms;
        let found = self.timers.reset(id, deadline);
        if !found {
            // the timer fired while the request held the lease; that firing
            // is stale (the reaper will find the id unbound), schedule anew
            let _ = self.timers.insert(id, deadline);
        }
        let ghost mid = self.leases.leases_view();
        let ghost w = worker;
        self.leases.insert(id, worker);
        proof {
            lemma_lease_workers_preserved(
                mid,
                self.leases.leases_view(),
                id,
                self.pool.dataset_view(),
            );
            lemma_tags_after_lease_push(
                mid,
                crate::binder::Lease { id, worker: w },
                self.pool.available_view(),
                self.pool.created(),
            );
        }
        AutocompleteOutcome::Matched { matches, engine_id: id, fresh_session: false }
    }

    /// The first-request half of `autocomplete`: draw a fresh engine id,
    /// acquire a worker, match, schedule the expiry timer, bind the lease.
    fn start_fresh(&mut self, query: &String, now: u64) -> (r: AutocompleteOutcome)
        requires
            old(self).wf(),
            query@.len() > 0,
            now + old(self).engine_expiry_ms <= u64::MAX,
        ensures
            final(self).wf(),
            old(self).same_config(*final(self)),
            final(self).timers.is_closed() == old(self).timers.is_closed(),
            !(r is Rejected),
            r is Busy ==> old(self).unchanged(*final(self)) && ((old(self).pool.available_view().len() == 0 && old(self).pool.created() == old(self).pool.capacity()) || old(self).leases.leases_view().len() > 0 || old(self).timers.entries_view().len() > 0),
            r matches AutocompleteOutcome::Matched { matches, engine_id, fresh_session } ==> {
                &&& fresh_session
                &&& matches@ == match_spec(old(self).pool.dataset_view(), query@)
                &&& matches@.len() <= 10
                &&& !lt_contains(old(self).leases.leases_view(), engine_id)
                &&& !tq_contains(old(self).timers.entries_view(), engine_id)
                &&& lt_contains(final(self).leases.leases_view(), engine_id)
                &&& lt_worker(final(self).leases.leases_view(), engine_id).prev_pattern_view()
                    == folded(query@)
                &&& tq_contains(final(self).timers.entries_view(), engine_id)
                &&& tq_deadline(final(self).timers.entries_view(), engine_id) == now + old(self).engine_expiry_ms
                &&& final(self).leases.leases_view().len() == old(self).leases.leases_view().len() + 1
                &&& final(self).pool.in_use() == old(self).pool.in_use() + 1
            },
            forall|u: u128|
                u != r.engine_id_or(u128::MAX) && #[trigger] lt_contains(
                    old(self).leases.leases_view(),
                    u,
                ) ==> lt_contains(final(self).leases.leases_view(), u) && lt_worker(
                    final(self).leases.leases_view(),
                    u,
                ) == lt_worker(old(self).leases.leases_view(), u),
            forall|u: u128|
                u != r.engine_id_or(u128::MAX) && #[trigger] tq_contains(
                    old(self).timers.entries_view(),
                    u,
                ) ==> tq_contains(final(self).timers.entries_view(), u) && tq_deadline(
                    final(self).timers.entries_view(),
                    u,
                ) == tq_deadline(old(self).timers.entries_view(), u),
    {
        let mut id: u128 = fresh_uuid();
        let mut attempts: usize = 0;
        while (self.leases.contains(id) || self.timers.contains(id)) && attempts < 8
            invariant
                old(self).unchanged(*self),
                self.wf(),
            decreases 8 - attempts,
        {
            id = fresh_uuid();
            attempts = attempts + 1;
        }
        if self.leases.contains(id) || self.timers.contains(id) {
            return AutocompleteOutcome::Busy;
        }
        match self.pool.try_acquire() {
            None => AutocompleteOutcome::Busy,
            Some(mut worker) => {
                let matches = worker.fuzzy_match(query);
                let _ = self.timers.insert(id, now + self.engine_expiry_ms);
                let ghost mid = self.leases.leases_view();
                let ghost w = worker;
                self.leases.insert(id, worker);
                proof {
                    lemma_lease_workers_preserved(
                        mid,
                        self.leases.leases_view(),
                        id,
                        self.pool.dataset_view(),
                    );
                    if old(self).pool.available_view().len() > 0 {
                        lemma_tags_pool_shrunk(mid, old(self).pool.available_view());
                    }
                    assert forall|i: int|
                        0 <= i < mid.len() implies (#[trigger] mid[i]).worker.tag_view()
                        != w.tag_view() by {
                        if old(self).pool.available_view().len() == 0 {
                            assert(mid[i].worker.tag_view() < old(self).pool.created());
                        }
                    }
                    assert forall|i: int|
                        0 <= i < mid.len() implies (#[trigger] mid[i]).worker.tag_view()
                        < self.pool.created() by {
                        assert(mid[i].worker.tag_view() < old(self).pool.created());
                    }
                    lemma_tags_after_lease_push(
                        mid,
                        crate::binder::Lease { id, worker: w },
                        self.pool.available_view(),
                        self.pool.created(),
                    );
                }
                AutocompleteOutcome::Matched { matches, engine_id: id, fresh_session: true }
            },
        }
    }

    /// One reaper step: delivers the earliest elapsed timer, if any, and
    /// returns that lease's worker to the pool.  When the lease is already
    /// gone — a request holds it, or it was reclaimed before — the firing
    /// is stale and discarded without touching the pool or any lease: a
    /// worker in a handler's hands is never returned to the pool behind its
    /// back.  A lease whose timer lies beyond `now` is left exactly as it
    /// was, so activity within the lease lifetime keeps a lease alive.
    pub fn reap_due(&mut self, now: u64) -> (r: ReapOutcome)
        requires
            old(self).wf(),
        ensures
            final(self).wf(),
            old(self).same_config(*final(self)),
            final(self).timers.is_closed() == old(self).timers.is_closed(),
            r is Idle ==> old(self).unchanged(*final(self)) && (old(self).timers.is_closed()
                || forall|k: int|
                0 <= k < old(self).timers.entries_view().len() ==> (#[trigger] old(self).timers.entries_view()[k]).deadline > now),
            !(r is Idle) ==> !old(self).timers.is_closed(),
            r matches ReapOutcome::Reclaimed { engine_id } ==> {
                &&& lt_contains(old(self).leases.leases_view(), engine_id)
                &&& !lt_contains(final(self).leases.leases_view(), engine_id)
                &&& final(self).leases.leases_view().len() + 1 == old(self).leases.leases_view().len()
                &&& final(self).pool.available_view() == old(self).pool.available_view().push(
                    lt_worker(old(self).leases.leases_view(), engine_id),
                )
                &&& final(self).pool.created() == old(self).pool.created()
                &&& tq_contains(old(self).timers.entries_view(), engine_id)
                &&& tq_deadline(old(self).timers.entries_view(), engine_id) <= now
                &&& !tq_contains(final(self).timers.entries_view(), engine_id)
            },
            r matches ReapOutcome::Stale { engine_id } ==> {
                &&& !lt_contains(old(self).leases.leases_view(), engine_id)
                &&& final(self).leases.leases_view() == old(self).leases.leases_view()
                &&& final(self).pool.available_view() == old(self).pool.available_view()
                &&& final(self).pool.created() == old(self).pool.created()
                &&& tq_contains(old(self).timers.entries_view(), engine_id)
                &&& tq_deadline(old(self).timers.entries_view(), engine_id) <= now
                &&& !tq_contains(final(self).timers.entries_view(), engine_id)
            },
            forall|u: u128|
                u != r.engine_id_or(0) && #[trigger] lt_contains(
                    old(self).leases.leases_view(),
                    u,
                ) ==> lt_contains(final(self).leases.leases_view(), u) && lt_worker(
                    final(self).leases.leases_view(),
                    u,
                ) == lt_worker(old(self).leases.leases_view(), u),
            forall|u: u128|
                u != r.engine_id_or(0) && #[trigger] tq_contains(
                    old(self).timers.entries_view(),
                    u,
                ) ==> tq_contains(final(self).timers.entries_view(), u) && tq_deadline(
                    final(self).timers.entries_view(),
                    u,
                ) == tq_deadline(old(self).timers.entries_view(), u),
            // a lease whose deadline has not elapsed survives, untouched
            forall|u: u128|
                #![trigger tq_deadline(old(self).timers.entries_view(), u)]
                lt_contains(old(self).leases.leases_view(), u) && tq_contains(
                    old(self).timers.entries_view(),
                    u,
                ) && tq_deadline(old(self).timers.entries_view(), u) > now ==> lt_contains(
                    final(self).leases.leases_view(),
                    u,
                ) && lt_worker(final(self).leases.leases_view(), u) == lt_worker(
                    old(self).leases.leases_view(),
                    u,
                ) && tq_contains(final(self).timers.entries_view(), u) && tq_deadline(
                    final(self).timers.entries_view(),
                    u,
                ) == tq_deadline(old(self).timers.entries_view(), u),
    {
        let fired = match self.timers.pop_due(now) {
            None => {
                return ReapOutcome::Idle;
            },
            Some(f) => f,
        };
        match self.leases.remove(fired) {
            Some(worker) => {
                proof {
                    let pre = old(self).leases.leases_view();
                    let t = crate::binder::lt_index_of(pre, fired);
                    assert(0 <= t < pre.len() && pre[t].id == fired);
                    assert(pre[t].worker.wf());
                    lemma_lease_workers_preserved(
                        pre,
                        self.leases.leases_view(),
                        fired,
                        self.pool.dataset_view(),
                    );
                    let k = choose|k: int|
                        0 <= k < pre.len() && (#[trigger] pre[k]).id == fired
                            && self.leases.leases_view() == pre.remove(k);
                    crate::binder::lemma_lt_lookup(pre, k);
                    lemma_tags_after_lease_remove(
                        pre,
                        k,
                        self.pool.available_view(),
                        self.pool.created(),
                    );
                    assert(worker == pre[k].worker);
                    assert forall|t2: int|
                        0 <= t2 < self.pool.available_view().len() implies (
                    #[trigger] self.pool.available_view()[t2]).tag_view() != worker.tag_view() by {
                        assert(pre[k].worker.tag_view() != self.pool.available_view()[t2].tag_view());
                    }
                }
                let ghost w = worker;
                let ghost pool0 = self.pool.available_view();
                self.pool.release(worker);
                proof {
                    lemma_tags_pool_grown(self.leases.leases_view(), pool0, w);
                }
                ReapOutcome::Reclaimed { engine_id: fired }
            },
            None => ReapOutcome::Stale { engine_id: fired },
        }
    }

    /// The stateless batch fuzzy-match step: one worker serves the whole
    /// batch, so that consecutive queries that extend one another can reuse
    /// the engine's incremental state.  Empty input — no queries at all, or
    /// a zero result limit — is rejected with nothing changed.  Each query
    /// gets its ranked matches truncated to `limit`; an empty query gets an
    /// empty list.  `Busy` means the pool was dry at its cap: nothing
    /// changed, the caller retries.  Leases and timers play no part here.
    pub fn fuzzy_batch(&mut self, strings: &Vec<String>, limit: u32) -> (r: BatchOutcome)
        requires
            old(self).wf(),
        ensures
            final(self).wf(),
            old(self).same_config(*final(self)),
            final(self).timers.is_closed() == old(self).timers.is_closed(),
            final(self).leases.leases_view() == old(self).leases.leases_view(),
            final(self).timers.entries_view() == old(self).timers.entries_view(),
            (r is Rejected) <==> (strings@.len() == 0 || limit == 0),
            r is Rejected ==> old(self).unchanged(*final(self)),
            r is Busy ==> old(self).unchanged(*final(self)) && old(self).pool.available_view().len() == 0 && old(self).pool.created() == old(self).pool.capacity(),
            r matches BatchOutcome::Matched { matches } ==> {
                &&& matches@.len() == strings@.len()
                &&& forall|i: int|
                    0 <= i < strings@.len() ==> (#[trigger] matches@[i])@ == batch_match_spec(
                        old(self).pool.dataset_view(),
                        strings@[i]@,
                        limit as int,
                    )
                &&& final(self).pool.in_use() == old(self).pool.in_use()
                &&& final(self).pool.created() >= old(self).pool.created()
            },
    {
        if strings.len() == 0 || limit == 0 {
            return BatchOutcome::Rejected;
        }
        let mut worker = match self.pool.try_acquire() {
            None => {
                return BatchOutcome::Busy;
            },
            Some(w) => w,
        };
        let ghost w0 = worker;
        let mut matches: Vec<Vec<EngineInputData>> = Vec::new();
        let n = strings.len();
        for i in 0..n
            invariant
                n == strings@.len(),
                worker.wf(),
                worker.records_view() == old(self).pool.dataset_view(),
                worker.tag_view() == w0.tag_view(),
                matches@.len() == i,
                forall|t: int|
                    0 <= t < i ==> (#[trigger] matches@[t])@ == batch_match_spec(
                        old(self).pool.dataset_view(),
                        strings@[t]@,
                        limit as int,
                    ),
        {
            let s = &strings[i];
            if s.as_str().is_empty() {
                matches.push(Vec::new());
            } else {
                let res = worker.fuzzy_match(s);
                matches.push(truncate_matches(res, limit));
            }
        }
        let ghost w = worker;
        let ghost pool0 = self.pool.available_view();
        self.pool.release(worker);
        proof {
            if old(self).pool.available_view().len() > 0 {
                lemma_tags_pool_shrunk(
                    self.leases.leases_view(),
                    old(self).pool.available_view(),
                );
            }
            assert forall|i: int|
                0 <= i < self.leases.leases_view().len() implies (
            #[trigger] self.leases.leases_view()[i]).worker.tag_view() != w.tag_view() by {
                if old(self).pool.available_view().len() == 0 {
                    assert(self.leases.leases_view()[i].worker.tag_view() < old(self).pool.created());
                }
            }
            lemma_tags_pool_grown(self.leases.leases_view(), pool0, w);
            assert forall|i: int|
                0 <= i < self.leases.leases_view().len() implies (
            #[trigger] self.leases.leases_view()[i]).worker.tag_view() < self.pool.created() by {
                assert(self.leases.leases_view()[i].worker.tag_view() < old(self).pool.created());
            }
        }
        BatchOutcome::Matched { matches }
    }

    /// Whether the timer queue has been closed, for the reaper's loop.
    pub fn timers_closed(&self) -> (r: bool)
        ensures
            r == self.timers.is_closed(),
    {
        self.timers.closed()
    }

    /// Closes the timer queue: the reaper's stream of expirations ends.
    pub fn close_timers(&mut self)
        requires
            old(self).wf(),
        ensures
            final(self).wf(),
            old(self).same_config(*final(self)),
            final(self).timers.is_closed(),
            final(self).pool.available_view() == old(self).pool.available_view(),
            final(self).pool.created() == old(self).pool.created(),
            final(self).leases.leases_view() == old(self).leases.leases_view(),
            final(self).timers.entries_view() == old(self).timers.entries_view(),
    {
        self.timers.close();
    }
}

/// Cuts a ranked result list off after `limit` records.
fn truncate_matches(v: Vec<EngineInputData>, limit: u32) -> (r: Vec<EngineInputData>)
    ensures
        r@ == (if v@.len() <= limit as int {
            v@
        } else {
            v@.take(limit as int)
        }),
{
    let ghost orig = v@;
    let mut v = v;
    while v.len() > limit as usize
        invariant
            v@.len() <= orig.len(),
            v@ == orig.take(v@.len() as int),
            v@.len() >= limit as int || v@.len() == orig.len(),
        decreases v.len(),
    {
        let _ = v.pop();
        proof {
            assert(v@ =~= orig.take(v@.len() as int));
        }
    }
    proof {
        if orig.len() <= limit as int {
            assert(v@ =~= orig);
        }
    }
    v
}

/// Builds one ecosystem over (a copy of) the dataset: a pool with
/// `min_size` workers pre-warmed and a cap of `max_size`, no leases, no
/// pending timers.  Leases will live `engine_expiry_ms` without activity.
pub fn build_pool_ecosystem(
    dataset: &Dataset,
    max_size: usize,
    min_size: usize,
    engine_expiry_ms: u64,
) -> (eco: Ecosystem)
    requires
        dataset.wf(),
        min_size <= max_size,
    ensures
        eco.wf(),
        eco.pool.dataset_view() == dataset.records@,
        eco.pool.available_view().len() == min_size,
        eco.pool.created() == min_size,
        eco.pool.capacity() == max_size,
        eco.pool.prewarmed() == min_size,
        forall|k: int|
            0 <= k < eco.pool.available_view().len() ==> (#[trigger] eco.pool.available_view()[k]).prev_pattern_view()
                == Seq::<char>::empty(),
        eco.leases.leases_view().len() == 0,
        eco.timers.entries_view().len() == 0,
        !eco.timers.is_closed(),
        eco.engine_expiry_ms == engine_expiry_ms,
{
    Ecosystem {
        pool: WorkerPool::new(dataset.duplicate(), max_size, min_size),
        leases: LeaseTable::new(),
        timers: TimerQueue::new(),
        engine_expiry_ms,
    }
}

/// No duplication, under any schedule of requests and reaper steps that
/// keeps the ecosystem well-formed: pooled plus leased workers never exceed
/// the pool's cap, and no worker sits in the pool and in a lease at once —
/// every worker carries a ghost tag, tags are pairwise distinct within the
/// pool and within the lease table, and the two never share one.
pub proof fn lemma_no_worker_duplication(eco: Ecosystem)
    requires
        eco.wf(),
    ensures
        eco.pool.available_view().len() + eco.leases.leases_view().len() <= eco.pool.capacity(),
        forall|i: int, k: int|
            0 <= i < eco.leases.leases_view().len() && 0 <= k < eco.pool.available_view().len()
                ==> (#[trigger] eco.leases.leases_view()[i]).worker.tag_view() != (
            #[trigger] eco.pool.available_view()[k]).tag_view(),
        forall|i: int, j: int|
            0 <= i < eco.leases.leases_view().len() && 0 <= j < eco.leases.leases_view().len()
                && i != j ==> (#[trigger] eco.leases.leases_view()[i]).worker.tag_view() != (
            #[trigger] eco.leases.leases_view()[j]).worker.tag_view(),
{
}

} // verus!
