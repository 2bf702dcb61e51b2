//! Concurrent marking - a worker drains the mark stack while the mutator
//! continues to issue write-barrier captures.
//!
//! The shape:
//!
//! ```text
//!   collector thread                       mutator thread
//!   ----------------                       ----------------
//!   while phase == Marking:                ... ordinary work ...
//!     drain remembered_set -> stack          pre_write(old_target):
//!     pop stack                                if phase == Marking:
//!       scan, recurse                            remembered_set.record
//!     if stack empty:
//!       sleep briefly
//!   final drain
//!   return black set
//! ```
//!
//! Termination protocol: the mutator (or a separate orchestrator) flips
//! the phase from `Marking` to anything else when it has stopped
//! producing new captures. The collector then drains any remaining
//! remembered-set entries one last time and exits.
//!
//! The collector holds a lock only for one access to the mark stack or the
//! remembered set at a time, and mutators run between any two of them. So
//! the collector is a [`ConcurrentMarker`] that takes one such access per
//! call; whoever runs it asks [`at`](ConcurrentMarker::at) for the next one,
//! takes the lock it needs and makes the call.

use crate::atomic::AtomicPhase;
use crate::barrier::{MarkStack, Phase};
#[allow(unused_imports)]
use crate::marker::edges_of;
use crate::marker::ObjectGraph;
#[allow(unused_imports)]
use crate::reach::reach_set;
use crate::remembered_set::RememberedSet;
#[allow(unused_imports)]
use crate::satb::{
    backlog, collected, distance, finishing_ends, finishing_goes_on, finishing_starts,
    is_finishing, unscanned, World,
};
use std::collections::HashSet;
use vstd::prelude::*;

verus! {

/// What the collector does next.
#[derive(Copy, Clone, Debug, PartialEq, Eq, Structural)]
pub enum Point {
    /// Empty the remembered set.
    Drain,
    /// Push what was drained onto the stack.
    Flush,
    /// Pop the stack.
    Pop,
    /// Read the references of this object, which has just turned black.
    Scan(u32),
    /// Push the next of the references that were read, unless it is black.
    Push,
    /// Nothing left to scan: look at the phase.
    Check,
    /// Marking is over: empty the remembered set once more.
    FinalDrain,
    /// Push what the final drain found.
    FinalFlush,
    /// The final drain found nothing: look whether the stack is still empty.
    FinalCheck,
    /// The mutator may produce more captures: wait for them.
    Pause,
    /// The black set is final.
    Done,
}

/// The collector: the black set, the ids that it has taken from elsewhere and not yet pushed,
/// and what it does next.
pub struct ConcurrentMarker {
    black: HashSet<u32>,
    pending: Vec<u32>,
    taken: usize,
    point: Point,
}

/// What a [`ConcurrentMarker`] holds.
#[verifier::ext_equal]
pub struct MarkerView {
    pub black: Set<u32>,
    pub pending: Seq<u32>,
    pub point: Point,
}

/// The collector before its first step.
pub open spec fn fresh_marker() -> MarkerView {
    MarkerView { black: Set::empty(), pending: Seq::empty(), point: Point::Drain }
}

/// Ids are pending only where the next step pushes them.
pub open spec fn marker_wf(m: MarkerView) -> bool {
    &&& match m.point {
        Point::Flush | Point::Push | Point::FinalFlush => m.pending.len() > 0,
        _ => m.pending.len() == 0,
    }
    &&& m.point matches Point::Scan(id) ==> m.black.contains(id)
}

/// The collector after it took `ids` out of the remembered set.
pub open spec fn drained(m: MarkerView, ids: Seq<u32>) -> MarkerView {
    MarkerView {
        pending: ids,
        point: if ids.len() > 0 {
            Point::Flush
        } else {
            Point::Pop
        },
        ..m
    }
}

/// The collector after it pushed all that was pending.
pub open spec fn flushed(m: MarkerView) -> MarkerView {
    MarkerView { pending: Seq::empty(), point: Point::Pop, ..m }
}

/// The collector after a pop that gave `top`.
pub open spec fn popped(m: MarkerView, top: Option<u32>) -> MarkerView {
    match top {
        None => MarkerView { point: Point::Check, ..m },
        Some(id) => if m.black.contains(id) {
            MarkerView { point: Point::Drain, ..m }
        } else {
            MarkerView { black: m.black.insert(id), point: Point::Scan(id), ..m }
        },
    }
}

/// The collector after it read that the object it scans refers to `refs`.
pub open spec fn scanned(m: MarkerView, refs: Seq<u32>) -> MarkerView {
    MarkerView {
        pending: refs,
        point: if refs.len() > 0 {
            Point::Push
        } else {
            Point::Drain
        },
        ..m
    }
}

/// The collector after it dealt with the first pending reference.
pub open spec fn pushed(m: MarkerView) -> MarkerView {
    MarkerView {
        pending: m.pending.drop_first(),
        point: if m.pending.len() > 1 {
            Point::Push
        } else {
            Point::Drain
        },
        ..m
    }
}

/// The stack after the collector dealt with the first pending reference.
pub open spec fn stack_pushed(m: MarkerView, stack: Seq<u32>) -> Seq<u32> {
    if m.black.contains(m.pending[0]) {
        stack
    } else {
        stack.push(m.pending[0])
    }
}

/// The collector after it found `phase`.
pub open spec fn checked(m: MarkerView, phase: Phase) -> MarkerView {
    MarkerView {
        point: if phase != Phase::Marking {
            Point::FinalDrain
        } else {
            Point::Pause
        },
        ..m
    }
}

/// The collector after its final drain gave `ids`.
pub open spec fn final_drained(m: MarkerView, ids: Seq<u32>) -> MarkerView {
    MarkerView {
        pending: ids,
        point: if ids.len() > 0 {
            Point::FinalFlush
        } else {
            Point::FinalCheck
        },
        ..m
    }
}

/// The collector after it pushed what its final drain gave.
pub open spec fn final_flushed(m: MarkerView) -> MarkerView {
    MarkerView { pending: Seq::empty(), point: Point::Drain, ..m }
}

/// The collector after its final look at the stack.
pub open spec fn final_checked(m: MarkerView, stack: Seq<u32>) -> MarkerView {
    MarkerView {
        point: if stack.len() == 0 {
            Point::Done
        } else {
            Point::Drain
        },
        ..m
    }
}

/// The collector after its pause.
pub open spec fn resumed(m: MarkerView) -> MarkerView {
    MarkerView { point: Point::Drain, ..m }
}

impl View for ConcurrentMarker {
    type V = MarkerView;

    closed spec fn view(&self) -> MarkerView {
        MarkerView {
            black: self.black@,
            pending: self.pending@.skip(self.taken as int),
            point: self.point,
        }
    }
}

impl ConcurrentMarker {
    /// What was taken of the pending ids lies within them.
    pub closed spec fn pending_wf(&self) -> bool {
        self.taken <= self.pending@.len()
    }

    pub open spec fn wf(&self) -> bool {
        &&& self.pending_wf()
        &&& marker_wf(self@)
    }

    /// A collector with nothing black, before its first step.
    pub fn new() -> (marker: Self)
        ensures
            marker.wf(),
            marker@ == fresh_marker(),
            marker@.black == Set::<u32>::empty(),
            marker@.pending == Seq::<u32>::empty(),
            marker@.point == Point::Drain,
    {
        let marker = Self {
            black: HashSet::new(),
            pending: Vec::new(),
            taken: 0,
            point: Point::Drain,
        };
        assert(marker@ =~= fresh_marker());
        marker
    }

    /// What the collector does next.
    pub fn at(&self) -> (point: Point)
        ensures
            point == self@.point,
    {
        self.point
    }

    /// Pull anything in the remembered set towards the stack.
    pub fn drain(&mut self, remembered: &mut RememberedSet)
        requires
            old(self).wf(),
            old(self)@.point == Point::Drain,
        ensures
            final(self).wf(),
            final(self)@ == drained(old(self)@, old(remembered)@),
            final(remembered)@ == Seq::<u32>::empty(),
    {
        self.pending = remembered.drain();
        self.taken = 0;
        self.point = if self.pending.len() > 0 {
            Point::Flush
        } else {
            Point::Pop
        };
        assert(self@.pending =~= old(remembered)@);
    }

    /// Pushes what is pending, all of it under one lock.
    fn push_all(&mut self, stack: &mut MarkStack)
        requires
            old(self).taken <= old(self).pending@.len(),
        ensures
            final(stack)@ == old(stack)@ + old(self)@.pending,
            final(self).taken == final(self).pending@.len(),
            final(self)@ == (MarkerView { pending: Seq::empty(), ..old(self)@ }),
    {
        let ghost ids = self@.pending;
        assert(stack@ =~= stack@ + ids.take(0));
        while self.taken < self.pending.len()
            invariant
                old(self).taken <= self.taken <= self.pending@.len(),
                self.pending == old(self).pending,
                self.black == old(self).black,
                self.point == old(self).point,
                ids == self.pending@.skip(old(self).taken as int),
                stack@ == old(stack)@ + ids.take(self.taken - old(self).taken),
            decreases self.pending@.len() - self.taken,
        {
            stack.push(self.pending[self.taken]);
            self.taken = self.taken + 1;
            assert(stack@ =~= old(stack)@ + ids.take(self.taken - old(self).taken));
        }
        assert(ids.take(self.taken - old(self).taken) =~= ids);
        assert(self@.pending =~= Seq::empty());
    }

    /// Push what was drained onto the stack.
    pub fn flush(&mut self, stack: &mut MarkStack)
        requires
            old(self).wf(),
            old(self)@.point == Point::Flush,
        ensures
            final(self).wf(),
            final(self)@ == flushed(old(self)@),
            final(stack)@ == old(stack)@ + old(self)@.pending,
    {
        self.push_all(stack);
        self.point = Point::Pop;
    }

    /// Pop the stack. An id that is not black yet turns black, and is scanned next.
    pub fn pop(&mut self, stack: &mut MarkStack)
        requires
            old(self).wf(),
            old(self)@.point == Point::Pop,
        ensures
            final(self).wf(),
            old(stack)@.len() == 0 ==> final(self)@ == popped(old(self)@, None) && final(stack)@
                == old(stack)@,
            old(stack)@.len() > 0 ==> final(self)@ == popped(old(self)@, Some(old(stack)@.last()))
                && final(stack)@ == old(stack)@.drop_last(),
    {
        match stack.pop() {
            Some(id) => {
                if self.black.insert(id) {
                    self.point = Point::Scan(id);
                } else {
                    assert(self.black@ =~= old(self).black@);
                    self.point = Point::Drain;
                }
            },
            None => {
                self.point = Point::Check;
            },
        }
    }

    /// Take note of the references that the object at [`Point::Scan`] holds.
    pub fn scan(&mut self, refs: Vec<u32>)
        requires
            old(self).wf(),
            old(self)@.point is Scan,
        ensures
            final(self).wf(),
            final(self)@ == scanned(old(self)@, refs@),
    {
        let ghost ids = refs@;
        self.point = if refs.len() > 0 {
            Point::Push
        } else {
            Point::Drain
        };
        self.pending = refs;
        self.taken = 0;
        assert(self@.pending =~= ids);
    }

    /// Push the next reference, unless it is black.
    pub fn push(&mut self, stack: &mut MarkStack)
        requires
            old(self).wf(),
            old(self)@.point == Point::Push,
        ensures
            final(self).wf(),
            final(self)@ == pushed(old(self)@),
            final(stack)@ == stack_pushed(old(self)@, old(stack)@),
    {
        assert(self.pending@.len() == self.pending.len());
        let child: u32 = self.pending[self.taken];
        if !self.black.contains(&child) {
            stack.push(child);
        }
        self.taken = self.taken + 1;
        if self.taken >= self.pending.len() {
            self.point = Point::Drain;
        }
        assert(self@.pending =~= old(self)@.pending.drop_first());
    }

    /// Nothing left to scan. Decide whether to terminate.
    pub fn check(&mut self, phase: Phase)
        requires
            old(self).wf(),
            old(self)@.point == Point::Check,
        ensures
            final(self).wf(),
            final(self)@ == checked(old(self)@, phase),
    {
        self.point = if phase != Phase::Marking {
            Point::FinalDrain
        } else {
            Point::Pause
        };
    }

    /// Final-drain the remembered set under quiescence.
    pub fn final_drain(&mut self, remembered: &mut RememberedSet)
        requires
            old(self).wf(),
            old(self)@.point == Point::FinalDrain,
        ensures
            final(self).wf(),
            final(self)@ == final_drained(old(self)@, old(remembered)@),
            final(remembered)@ == Seq::<u32>::empty(),
    {
        self.pending = remembered.drain();
        self.taken = 0;
        self.point = if self.pending.len() > 0 {
            Point::FinalFlush
        } else {
            Point::FinalCheck
        };
        assert(self@.pending =~= old(remembered)@);
    }

    /// Push what the final drain found, and go on marking.
    pub fn final_flush(&mut self, stack: &mut MarkStack)
        requires
            old(self).wf(),
            old(self)@.point == Point::FinalFlush,
        ensures
            final(self).wf(),
            final(self)@ == final_flushed(old(self)@),
            final(stack)@ == old(stack)@ + old(self)@.pending,
    {
        self.push_all(stack);
        self.point = Point::Drain;
    }

    /// Marking is finished if the stack is still empty.
    pub fn final_check(&mut self, stack: &MarkStack)
        requires
            old(self).wf(),
            old(self)@.point == Point::FinalCheck,
        ensures
            final(self).wf(),
            final(self)@ == final_checked(old(self)@, stack@),
    {
        self.point = if stack.is_empty() {
            Point::Done
        } else {
            Point::Drain
        };
    }

    /// Go on after a pause.
    pub fn resume(&mut self)
        requires
            old(self).wf(),
            old(self)@.point == Point::Pause,
        ensures
            final(self).wf(),
            final(self)@ == resumed(old(self)@),
    {
        self.point = Point::Drain;
    }

    /// The black set, once marking is done.
    pub fn finish(self) -> (black: HashSet<u32>)
        requires
            self@.point == Point::Done,
        ensures
            black@ == self@.black,
    {
        self.black
    }

    /// Takes the next step, whatever it is, with all that it may need at hand.
    pub fn step<G: ObjectGraph<Id = u32>>(
        &mut self,
        graph: &G,
        stack: &mut MarkStack,
        remembered: &mut RememberedSet,
        phase: &AtomicPhase,
    )
        requires
            old(self).wf(),
            old(self)@.point != Point::Done,
        ensures
            final(self).wf(),
            collected(world_of(old(self)@, old(stack)@, old(remembered)@, phase@, edges_of(graph)))
                == world_of(
                final(self)@,
                final(stack)@,
                final(remembered)@,
                phase@,
                edges_of(graph),
            ),
    {
        match self.point {
            Point::Drain => self.drain(remembered),
            Point::Flush => self.flush(stack),
            Point::Pop => self.pop(stack),
            Point::Scan(id) => self.scan(graph.refs_of(id)),
            Point::Push => self.push(stack),
            Point::Check => self.check(phase.load()),
            Point::FinalDrain => self.final_drain(remembered),
            Point::FinalFlush => self.final_flush(stack),
            Point::FinalCheck => self.final_check(stack),
            Point::Pause => self.resume(),
            Point::Done => {},
        }
    }
}

/// The world of a collector whose graph stands still and whom no mutator disturbs.
pub open spec fn world_of(
    marker: MarkerView,
    stack: Seq<u32>,
    remembered: Seq<u32>,
    phase: Phase,
    refs: spec_fn(u32) -> Seq<u32>,
) -> World {
    World { marker, stack, remembered, phase, refs, writing: Map::empty() }
}

/// Runs a collector from its first step to its last, once the phase has left `Marking`: the
/// black set is all that the stack and the remembered set reach, and nothing else.
pub fn concurrent_mark<G: ObjectGraph<Id = u32>>(
    graph: &G,
    stack: &mut MarkStack,
    remembered: &mut RememberedSet,
    phase: &AtomicPhase,
) -> (black: HashSet<u32>)
    requires
        phase@ != Phase::Marking,
    ensures
        black@ == reach_set(
            old(stack)@.to_set().union(old(remembered)@.to_set()),
            edges_of(graph),
        ),
        final(stack)@.len() == 0,
        final(remembered)@.len() == 0,
{
    let ghost refs = edges_of(graph);
    let ghost sources = stack@.to_set().union(remembered@.to_set());
    let ghost ids = reach_set(sources, refs);
    let mut marker = ConcurrentMarker::new();
    proof {
        finishing_starts(world_of(marker@, stack@, remembered@, phase@, refs));
    }
    while marker.at() != Point::Done
        invariant
            refs == edges_of(graph),
            ids == reach_set(sources, refs),
            marker.wf(),
            is_finishing(world_of(marker@, stack@, remembered@, phase@, refs), sources),
        decreases
            unscanned(world_of(marker@, stack@, remembered@, phase@, refs), ids).len(),
            backlog(world_of(marker@, stack@, remembered@, phase@, refs)),
            distance(world_of(marker@, stack@, remembered@, phase@, refs)),
    {
        proof {
            finishing_goes_on(world_of(marker@, stack@, remembered@, phase@, refs), sources);
        }
        marker.step(graph, stack, remembered, phase);
    }
    proof {
        finishing_ends(world_of(marker@, stack@, remembered@, phase@, refs), sources);
    }
    marker.finish()
}

} // verus!
