//! The phase cell and the write barrier of the concurrent collector.
//!
//! [`Phase`] and [`WriteBarrier`](crate::WriteBarrier) serve one thread.
//! Here they are lifted into the multi-threaded world: an [`AtomicPhase`]
//! that holds the phase as one byte, so that every access to it is a single
//! atomic step, and an [`AtomicWriteBarrier`] that pushes overwritten
//! references into a [`RememberedSet`] instead of a single-threaded stack.
//!
//! Phase transitions compare and swap, so the collector can detect a
//! misordered call and refuse to advance.

#[allow(unused_imports)]
use crate::barrier::capture;
use crate::barrier::Phase;
use crate::remembered_set::RememberedSet;
use vstd::prelude::*;

verus! {

const PHASE_IDLE: u8 = 0;

const PHASE_MARKING: u8 = 1;

const PHASE_SWEEPING: u8 = 2;

/// The byte that stands for a phase.
pub open spec fn phase_byte(p: Phase) -> u8 {
    match p {
        Phase::Idle => 0,
        Phase::Marking => 1,
        Phase::Sweeping => 2,
    }
}

/// The byte that stands for `p`.
pub fn encode(p: Phase) -> (v: u8)
    ensures
        v == phase_byte(p),
{
    match p {
        Phase::Idle => PHASE_IDLE,
        Phase::Marking => PHASE_MARKING,
        Phase::Sweeping => PHASE_SWEEPING,
    }
}

/// The phase that `v` stands for.
pub fn decode(v: u8) -> (p: Phase)
    requires
        v <= 2,
    ensures
        phase_byte(p) == v,
{
    match v {
        PHASE_IDLE => Phase::Idle,
        PHASE_MARKING => Phase::Marking,
        _ => Phase::Sweeping,
    }
}

/// No two phases share a byte, so decoding undoes encoding.
pub proof fn phase_bytes_differ(p: Phase, q: Phase)
    ensures
        phase_byte(p) == phase_byte(q) ==> p == q,
        phase_byte(p) <= 2,
{
}

/// The collector's phase in one byte. Each method is one access to the byte.
pub struct AtomicPhase(u8);

impl View for AtomicPhase {
    type V = Phase;

    closed spec fn view(&self) -> Phase {
        if self.0 == 0 {
            Phase::Idle
        } else if self.0 == 1 {
            Phase::Marking
        } else {
            Phase::Sweeping
        }
    }
}

impl Default for AtomicPhase {
    fn default() -> (phase: Self)
        ensures
            phase@ == Phase::Idle,
    {
        Self::new()
    }
}

impl AtomicPhase {
    #[verifier::type_invariant]
    spec fn holds_a_phase(&self) -> bool {
        self.0 <= 2
    }

    /// A cell in [`Phase::Idle`].
    pub fn new() -> (phase: Self)
        ensures
            phase@ == Phase::Idle,
    {
        Self(PHASE_IDLE)
    }

    /// The phase that the cell is in.
    pub fn load(&self) -> (p: Phase)
        ensures
            p == self@,
    {
        proof {
            use_type_invariant(self);
        }
        decode(self.0)
    }

    /// Puts the cell into phase `p`, whatever it was in.
    pub fn store(&mut self, p: Phase)
        ensures
            final(self)@ == p,
    {
        self.0 = encode(p);
    }

    /// Atomic state transition. Returns `true` iff the previous phase
    /// matched `from`. The intended state machine is
    /// `Idle -> Marking -> Sweeping -> Idle`; out-of-order calls are
    /// refused so the collector can detect bugs immediately.
    pub fn transition(&mut self, from: Phase, to: Phase) -> (moved: bool)
        ensures
            moved == (old(self)@ == from),
            final(self)@ == (if moved {
                to
            } else {
                old(self)@
            }),
    {
        proof {
            use_type_invariant(&*self);
        }
        if self.0 == encode(from) {
            self.0 = encode(to);
            true
        } else {
            false
        }
    }
}

/// SATB write barrier into a remembered set. The mutator calls
/// [`pre_write`](Self::pre_write) before overwriting a reference; if the
/// collector is in [`Phase::Marking`], the previous target is recorded into
/// the [`RememberedSet`].
pub struct AtomicWriteBarrier<'a> {
    /// The phase cell that the barrier consults.
    pub phase: &'a AtomicPhase,
    /// Where it captures.
    pub set: &'a mut RememberedSet,
}

impl<'a> AtomicWriteBarrier<'a> {
    /// A barrier that captures into `set` while `phase` says so.
    pub fn new(phase: &'a AtomicPhase, set: &'a mut RememberedSet) -> (barrier: Self)
        ensures
            *barrier.phase == *phase,
            *barrier.set == *old(set),
            *final(barrier.set) == *final(set),
    {
        Self { phase, set }
    }

    /// Called by the mutator before overwriting a reference. The argument is
    /// the *previous* target of the reference (the one about to be lost).
    pub fn pre_write(&mut self, overwritten: u32)
        ensures
            *final(self).phase == *old(self).phase,
            final(self).set@ == capture(old(self).phase@, old(self).set@, overwritten),
            old(self).phase@ == Phase::Marking ==> final(self).set@ == old(self).set@.push(
                overwritten,
            ),
            old(self).phase@ != Phase::Marking ==> final(self).set@ == old(self).set@,
            *final(final(self).set) == *final(old(self).set),
    {
        if self.phase.load() == Phase::Marking {
            self.set.record(overwritten);
        }
    }
}

} // verus!
