use vstd::prelude::*;

verus! {

use crate::engine::Matcher;
use crate::records::{Dataset, EngineInputData};

/// Observability snapshot of a pool: how many workers sit ready, how many
/// are out, and the cap.
pub struct PoolStatus {
    pub available: usize,
    pub in_use: usize,
    pub capacity: usize,
}

/// Bounded reservoir of match workers over one dataset.  `min_size` workers
/// are built eagerly; more are built lazily on demand, never beyond
/// `max_size`.  Workers are handed out by value and returned by value, so a
/// worker is owned either by the pool or by exactly one caller, never both.
pub struct WorkerPool {
    dataset: Dataset,
    available: Vec<Matcher>,
    created: usize,
    max_size: usize,
    min_size: usize,
}

impl WorkerPool {
    /// The workers currently sitting in the pool.
    pub closed spec fn available_view(self) -> Seq<Matcher> {
        self.available@
    }

    /// How many workers exist, pooled or handed out.
    pub closed spec fn created(self) -> int {
        self.created as int
    }

    /// The cap on live workers.
    pub closed spec fn capacity(self) -> int {
        self.max_size as int
    }

    /// The pre-warmed count.
    pub closed spec fn prewarmed(self) -> int {
        self.min_size as int
    }

    /// The records every worker of this pool ranks.
    pub closed spec fn dataset_view(self) -> Seq<EngineInputData> {
        self.dataset.records@
    }

    /// How many workers are currently handed out.
    pub open spec fn in_use(self) -> int {
        self.created() - self.available_view().len()
    }

    /// Every pooled worker is sound and ranks this pool's dataset; counts
    /// are conserved and bounded by the cap; and every pooled worker
    /// carries its own ghost tag, below the creation count — two places
    /// holding the same worker would hold the same tag, which the
    /// invariants rule out.
    pub open spec fn wf(self) -> bool {
        &&& self.dataset_view().len() <= u32::MAX
        &&& self.available_view().len() <= self.created()
        &&& self.created() <= self.capacity()
        &&& self.prewarmed() <= self.capacity()
        &&& forall|k: int|
            0 <= k < self.available_view().len() ==> (#[trigger] self.available_view()[k]).wf()
                && self.available_view()[k].records_view() == self.dataset_view()
                && self.available_view()[k].tag_view() < self.created()
        &&& forall|i: int, j: int|
            0 <= i < self.available_view().len() && 0 <= j < self.available_view().len() && i != j
                ==> (#[trigger] self.available_view()[i]).tag_view() != (
            #[trigger] self.available_view()[j]).tag_view()
    }

    /// Builds the pool and pre-warms `min_size` workers.
    pub fn new(dataset: Dataset, max_size: usize, min_size: usize) -> (p: WorkerPool)
        requires
            dataset.wf(),
            min_size <= max_size,
        ensures
            p.wf(),
            p.dataset_view() == dataset.records@,
            p.available_view().len() == min_size,
            p.created() == min_size,
            p.capacity() == max_size,
            p.prewarmed() == min_size,
            forall|k: int|
                0 <= k < p.available_view().len() ==> (#[trigger] p.available_view()[k]).prev_pattern_view()
                    == Seq::<char>::empty(),
    {
        let mut available: Vec<Matcher> = Vec::new();
        for i in 0..min_size
            invariant
                dataset.wf(),
                available@.len() == i,
                forall|k: int|
                    0 <= k < i ==> (#[trigger] available@[k]).wf()
                        && available@[k].records_view() == dataset.records@
                        && available@[k].tag_view() == k
                        && available@[k].prev_pattern_view() == Seq::<char>::empty(),
        {
            let mut m = Matcher::new(&dataset);
            m.set_tag(Ghost(i as nat));
            available.push(m);
        }
        WorkerPool { dataset, available, created: min_size, max_size, min_size }
    }

    /// Hands out a worker without suspending: a pooled one if any, a fresh
    /// one if the cap allows, nothing otherwise.  The caller owns the worker
    /// until it releases it.
    pub fn try_acquire(&mut self) -> (r: Option<Matcher>)
        requires
            old(self).wf(),
        ensures
            final(self).wf(),
            final(self).dataset_view() == old(self).dataset_view(),
            final(self).capacity() == old(self).capacity(),
            final(self).prewarmed() == old(self).prewarmed(),
            r.is_none() ==> final(self).available_view() == old(self).available_view()
                && final(self).created() == old(self).created() && old(self).available_view().len() == 0 && old(self).created() == old(self).capacity(),
            r.is_some() ==> {
                &&& r.unwrap().wf()
                &&& r.unwrap().records_view() == old(self).dataset_view()
                &&& final(self).in_use() == old(self).in_use() + 1
                &&& r.unwrap().tag_view() < final(self).created()
                &&& forall|k: int|
                    0 <= k < final(self).available_view().len() ==> (#[trigger] final(self).available_view()[k]).tag_view() != r.unwrap().tag_view()
            },
            // either the last pooled worker is handed out, or a fresh one is
            // built because the pool was empty and below its cap
            r.is_some() && old(self).available_view().len() > 0 ==> r == Some(
                old(self).available_view().last(),
            ) && final(self).available_view() == old(self).available_view().drop_last()
                && final(self).created() == old(self).created(),
            r.is_some() && old(self).available_view().len() == 0 ==> old(self).created() < old(self).capacity() && final(self).created() == old(self).created() + 1 && final(self).available_view() == old(self).available_view() && r.unwrap().prev_pattern_view()
                == Seq::<char>::empty() && r.unwrap().tag_view() == old(self).created(),
    {
        match self.available.pop() {
            Some(m) => Some(m),
            None => {
                if self.created < self.max_size {
                    let mut m = Matcher::new(&self.dataset);
                    m.set_tag(Ghost(self.created as nat));
                    self.created = self.created + 1;
                    Some(m)
                } else {
                    None
                }
            },
        }
    }

    /// Takes a worker back.  Only a worker of this pool may come back, and
    /// only while some worker is out.
    pub fn release(&mut self, m: Matcher)
        requires
            old(self).wf(),
            m.wf(),
            m.records_view() == old(self).dataset_view(),
            old(self).in_use() >= 1,
            m.tag_view() < old(self).created(),
            forall|k: int|
                0 <= k < old(self).available_view().len() ==> (#[trigger] old(self).available_view()[k]).tag_view() != m.tag_view(),
        ensures
            final(self).wf(),
            final(self).dataset_view() == old(self).dataset_view(),
            final(self).capacity() == old(self).capacity(),
            final(self).prewarmed() == old(self).prewarmed(),
            final(self).created() == old(self).created(),
            final(self).available_view() == old(self).available_view().push(m),
            final(self).in_use() == old(self).in_use() - 1,
    {
        self.available.push(m);
    }

    /// The pool's counters, for observability.
    pub fn status(&self) -> (s: PoolStatus)
        requires
            self.wf(),
        ensures
            s.available == self.available_view().len(),
            s.in_use == self.in_use(),
            s.capacity == self.capacity(),
    {
        PoolStatus {
            available: self.available.len(),
            in_use: self.created - self.available.len(),
            capacity: self.max_size,
        }
    }
}

} // verus!
