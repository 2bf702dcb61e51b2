//! Snapshot-at-the-beginning (SATB) write barrier (Yuasa, 1990).
//!
//! The fundamental concurrent-GC problem: the mutator can overwrite a
//! reference between the moment marking starts and the moment marking ends.
//! If the overwritten reference was the only path from the marked-roots to
//! some object, that object becomes unreachable from the marker's
//! perspective and gets falsely swept.
//!
//! Two classical solutions:
//!
//! - **Insertion barrier (Dijkstra)**: when a reference to a white target is
//!   inserted into a black source, mark the target grey. Cost: write rate.
//! - **Deletion barrier (Yuasa, SATB)**: when a reference is overwritten,
//!   capture the *old* target onto the mark stack. Cost: bounded by allocation
//!   rate, since each captured reference can be processed at most once.
//!
//! samsara picks SATB: the barrier preserves the invariant
//!
//! > every object reachable at the start of marking remains marked at the end.
//!
//! That invariant is stated and proved in [`satb`](crate::satb).

use vstd::prelude::*;

verus! {

/// A simple stack of object identifiers awaiting scan.
#[derive(Debug)]
pub struct MarkStack {
    objects: Vec<u32>,
}

impl View for MarkStack {
    type V = Seq<u32>;

    /// The identifiers on the stack, the top one last.
    closed spec fn view(&self) -> Seq<u32> {
        self.objects@
    }
}

impl Clone for MarkStack {
    fn clone(&self) -> (copy: Self)
        ensures
            copy@ == self@,
    {
        let copy = Self { objects: self.objects.clone() };
        assert(copy@ =~= self@);
        copy
    }
}

impl Default for MarkStack {
    fn default() -> (stack: Self)
        ensures
            stack@ == Seq::<u32>::empty(),
    {
        Self { objects: Vec::new() }
    }
}

impl MarkStack {
    /// An empty stack.
    pub fn new() -> (stack: Self)
        ensures
            stack@ == Seq::<u32>::empty(),
    {
        Self::default()
    }

    /// Puts `id` on top.
    pub fn push(&mut self, id: u32)
        ensures
            final(self)@ == old(self)@.push(id),
    {
        self.objects.push(id);
    }

    /// Takes the top identifier off, or returns `None` if the stack is empty.
    pub fn pop(&mut self) -> (id: Option<u32>)
        ensures
            match id {
                Some(id) => old(self)@.len() > 0 && id == old(self)@.last() && final(self)@
                    == old(self)@.drop_last(),
                None => old(self)@.len() == 0 && final(self)@ == old(self)@,
            },
    {
        self.objects.pop()
    }

    /// How many identifiers wait.
    pub fn len(&self) -> (len: usize)
        ensures
            len == self@.len(),
    {
        self.objects.len()
    }

    /// Whether none waits.
    pub fn is_empty(&self) -> (empty: bool)
        ensures
            empty == (self@.len() == 0),
    {
        self.objects.is_empty()
    }

    /// Whether `id` waits.
    pub fn contains(&self, id: u32) -> (found: bool)
        ensures
            found == self@.contains(id),
    {
        let mut i: usize = 0;
        while i < self.objects.len()
            invariant
                i <= self.objects@.len(),
                forall|k: int| 0 <= k < i ==> self.objects@[k] != id,
            decreases self.objects@.len() - i,
        {
            if self.objects[i] == id {
                return true;
            }
            i = i + 1;
        }
        false
    }
}

/// The collector's state machine. The barrier consults this to know whether
/// to capture overwritten references.
#[derive(Copy, Clone, Debug, PartialEq, Eq, Structural)]
pub enum Phase {
    /// No GC activity. The barrier is a no-op.
    Idle,
    /// Marking is in progress. The SATB barrier captures overwritten
    /// references onto the mark stack.
    Marking,
    /// Sweep phase. The barrier is a no-op (no new white objects can be
    /// created during sweep that the marker missed).
    Sweeping,
}

/// What a barrier does to the captured references when the reference to `overwritten` is
/// about to be lost: it is captured during marking, and at no other time.
pub open spec fn capture(phase: Phase, captured: Seq<u32>, overwritten: u32) -> Seq<u32> {
    if phase == Phase::Marking {
        captured.push(overwritten)
    } else {
        captured
    }
}

/// SATB write barrier. The mutator calls [`pre_write`](Self::pre_write)
/// immediately *before* overwriting a reference. During [`Phase::Marking`],
/// the previously-referenced object is pushed onto the mark stack so that
/// it (and everything reachable from it) is preserved.
pub struct WriteBarrier<'a> {
    /// The phase that the barrier consults.
    pub phase: &'a Phase,
    /// Where it captures.
    pub stack: &'a mut MarkStack,
}

impl<'a> WriteBarrier<'a> {
    /// A barrier that captures onto `stack` while `phase` says so.
    pub fn new(phase: &'a Phase, stack: &'a mut MarkStack) -> (barrier: Self)
        ensures
            *barrier.phase == *phase,
            *barrier.stack == *old(stack),
            *final(barrier.stack) == *final(stack),
    {
        Self { phase, stack }
    }

    /// Called by the mutator before overwriting a reference. The argument is
    /// the *previous* target of the reference (the one about to be lost).
    pub fn pre_write(&mut self, overwritten: u32)
        ensures
            *final(self).phase == *old(self).phase,
            final(self).stack@ == capture(*old(self).phase, old(self).stack@, overwritten),
            *old(self).phase == Phase::Marking ==> final(self).stack@ == old(self).stack@.push(
                overwritten,
            ),
            *old(self).phase != Phase::Marking ==> final(self).stack@ == old(self).stack@,
            *final(final(self).stack) == *final(old(self).stack),
    {
        if *self.phase == Phase::Marking {
            self.stack.push(overwritten);
        }
    }
}

/// During marking a call of the barrier captures the overwritten reference, behind all that was
/// captured before.
pub proof fn marking_captures(captured: Seq<u32>, overwritten: u32)
    ensures
        capture(Phase::Marking, captured, overwritten).len() == captured.len() + 1,
        capture(Phase::Marking, captured, overwritten).last() == overwritten,
        forall|i: int|
            0 <= i < captured.len() ==> #[trigger] capture(
                Phase::Marking,
                captured,
                overwritten,
            )[i] == captured[i],
{
}

/// In every other phase a call of the barrier does nothing: whatever was captured before stays,
/// and nothing is added.
pub proof fn barrier_is_idle_outside_marking(phase: Phase, captured: Seq<u32>, overwritten: u32)
    requires
        phase != Phase::Marking,
    ensures
        capture(phase, captured, overwritten) == captured,
{
}

/// In no phase does a call of the barrier lose a reference that was captured before.
pub proof fn captured_stays_captured(
    phase: Phase,
    captured: Seq<u32>,
    overwritten: u32,
    id: u32,
)
    requires
        captured.contains(id),
    ensures
        capture(phase, captured, overwritten).contains(id),
{
    assert(capture(phase, captured, overwritten)[captured.index_of(id)] == id);
}

} // verus!
