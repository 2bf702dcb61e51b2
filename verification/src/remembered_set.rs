//! A multi-producer remembered set.
//!
//! Used by [`AtomicWriteBarrier`](crate::AtomicWriteBarrier) to capture
//! references overwritten during marking. Many mutators `record`, one at a
//! time; the collector calls `drain` to pull every captured id onto its mark
//! stack. A lock around the set serializes them: every operation here is what
//! happens while the lock is held.

use vstd::prelude::*;

verus! {

pub struct RememberedSet {
    inner: Vec<u32>,
}

impl View for RememberedSet {
    type V = Seq<u32>;

    /// The ids recorded since the last drain, in the order in which they came.
    closed spec fn view(&self) -> Seq<u32> {
        self.inner@
    }
}

impl Default for RememberedSet {
    fn default() -> (set: Self)
        ensures
            set@ == Seq::<u32>::empty(),
    {
        Self { inner: Vec::new() }
    }
}

impl RememberedSet {
    /// An empty set.
    pub fn new() -> (set: Self)
        ensures
            set@ == Seq::<u32>::empty(),
    {
        Self::default()
    }

    /// Record `id` onto the queue.
    pub fn record(&mut self, id: u32)
        ensures
            final(self)@ == old(self)@.push(id),
    {
        self.inner.push(id);
    }

    /// Empty the queue and return its contents.
    pub fn drain(&mut self) -> (ids: Vec<u32>)
        ensures
            ids@ == old(self)@,
            final(self)@ == Seq::<u32>::empty(),
    {
        let mut ids: Vec<u32> = Vec::new();
        std::mem::swap(&mut ids, &mut self.inner);
        ids
    }

    /// How many records wait.
    pub fn len(&self) -> (len: usize)
        ensures
            len == self@.len(),
    {
        self.inner.len()
    }

    /// Whether none waits.
    pub fn is_empty(&self) -> (empty: bool)
        ensures
            empty == (self@.len() == 0),
    {
        self.len() == 0
    }
}

/// The queue after `ids` were recorded, one after the other, by whichever mutators.
pub open spec fn recorded(queue: Seq<u32>, ids: Seq<u32>) -> Seq<u32>
    decreases ids.len(),
{
    if ids.len() == 0 {
        queue
    } else {
        recorded(queue, ids.drop_last()).push(ids.last())
    }
}

/// No record is lost, doubled or reordered: a drain gives back exactly what was recorded
/// since the one before.
pub proof fn every_record_arrives(queue: Seq<u32>, ids: Seq<u32>)
    ensures
        recorded(queue, ids) == queue + ids,
        recorded(Seq::empty(), ids) == ids,
    decreases ids.len(),
{
    if ids.len() > 0 {
        every_record_arrives(queue, ids.drop_last());
        assert((queue + ids.drop_last()).push(ids.last()) =~= queue + ids);
        assert(ids.drop_last().push(ids.last()) =~= ids);
    } else {
        assert(queue + ids =~= queue);
        assert(ids =~= Seq::empty());
    }
}

} // verus!
