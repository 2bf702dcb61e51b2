//! What snapshot-at-the-beginning marking guarantees, whatever the interleaving.
//!
//! A [`World`] is all that collector and mutators share: the collector between two of its
//! steps, the mark stack, the remembered set, the phase, and the references that the objects
//! hold. An [`Event`] is one step of somebody. The guarantee: every object that was reachable
//! when marking started is black when the collector is done, though mutators overwrite
//! references all the while, as long as each captures what it is about to overwrite. And no id
//! that was recorded is missed: it is black too, with all that it reached when marking started.

use crate::barrier::{capture, Phase};
use crate::concurrent::{
    checked, drained, final_checked, final_drained, final_flushed, flushed, fresh_marker,
    marker_wf, popped, pushed, resumed, scanned, stack_pushed, MarkerView, Point,
};
use crate::reach::{
    closed_set_holds_reach, edge_extends_reach, ids_of_32_bits_are_finite, reach_is_monotone,
    reach_set, reachable, start_is_reachable,
};
use vstd::prelude::*;

verus! {

/// All that collector and mutators share.
pub struct World {
    pub marker: MarkerView,
    pub stack: Seq<u32>,
    pub remembered: Seq<u32>,
    pub phase: Phase,
    /// The references that each object holds, slot by slot.
    pub refs: spec_fn(u32) -> Seq<u32>,
    /// For each mutator that has captured and not yet written: the object and the slot that it
    /// is about to overwrite.
    pub writing: Map<nat, (u32, int)>,
}

/// One step of the collector or of somebody else.
pub enum Event {
    /// The collector takes its next step.
    Collect,
    /// A mutator calls the barrier with what a slot holds, because it is about to overwrite it.
    /// The barrier captures onto the stack, or into the remembered set.
    Capture { mutator: nat, object: u32, slot: int, onto_stack: bool },
    /// Somebody calls the barrier with an id of any object, in whatever phase: during marking it
    /// is recorded into the remembered set.
    Record { id: u32 },
    /// The mutator overwrites that slot.
    Overwrite { mutator: nat, target: u32 },
    /// An object gets a new slot. No reference is lost.
    Link { object: u32, target: u32 },
    /// Somebody puts an id onto the mark stack.
    Shade { id: u32 },
    /// The mutators have stopped producing captures, and the phase leaves `Marking`.
    EndMarking { phase: Phase },
}

/// The references with one slot overwritten.
pub open spec fn with_slot(
    refs: spec_fn(u32) -> Seq<u32>,
    object: u32,
    slot: int,
    target: u32,
) -> spec_fn(u32) -> Seq<u32> {
    |x: u32|
        if x == object {
            refs(x).update(slot, target)
        } else {
            refs(x)
        }
}

/// The references with one more slot.
pub open spec fn with_new_slot(
    refs: spec_fn(u32) -> Seq<u32>,
    object: u32,
    target: u32,
) -> spec_fn(u32) -> Seq<u32> {
    |x: u32|
        if x == object {
            refs(x).push(target)
        } else {
            refs(x)
        }
}

/// The world after the collector's next step.
pub open spec fn collected(w: World) -> World {
    let m = w.marker;
    match m.point {
        Point::Drain => World {
            marker: drained(m, w.remembered),
            remembered: Seq::empty(),
            ..w
        },
        Point::Flush => World { marker: flushed(m), stack: w.stack + m.pending, ..w },
        Point::Pop => if w.stack.len() == 0 {
            World { marker: popped(m, None), ..w }
        } else {
            World {
                marker: popped(m, Some(w.stack.last())),
                stack: w.stack.drop_last(),
                ..w
            }
        },
        Point::Scan(id) => World { marker: scanned(m, (w.refs)(id)), ..w },
        Point::Push => World { marker: pushed(m), stack: stack_pushed(m, w.stack), ..w },
        Point::Check => World { marker: checked(m, w.phase), ..w },
        Point::FinalDrain => World {
            marker: final_drained(m, w.remembered),
            remembered: Seq::empty(),
            ..w
        },
        Point::FinalFlush => World {
            marker: final_flushed(m),
            stack: w.stack + m.pending,
            ..w
        },
        Point::FinalCheck => World { marker: final_checked(m, w.stack), ..w },
        Point::Pause => World { marker: resumed(m), ..w },
        Point::Done => w,
    }
}

/// Whether an event can happen. Mutators follow the protocol: they overwrite a slot only after
/// they have captured it, and only while the phase is `Marking`; the phase ends when none of
/// them is between the two.
pub open spec fn can_happen(w: World, e: Event) -> bool {
    match e {
        Event::Collect => w.marker.point != Point::Done,
        Event::Capture { mutator, object, slot, onto_stack } => {
            &&& w.phase == Phase::Marking
            &&& !w.writing.dom().contains(mutator)
            &&& 0 <= slot < (w.refs)(object).len()
        },
        Event::Record { id } => true,
        Event::Overwrite { mutator, target } => w.writing.dom().contains(mutator),
        Event::Link { object, target } => true,
        Event::Shade { id } => w.marker.point != Point::Done,
        Event::EndMarking { phase } => {
            &&& w.phase == Phase::Marking
            &&& phase != Phase::Marking
            &&& w.writing.dom() == Set::<nat>::empty()
        },
    }
}

/// The world after an event.
pub open spec fn after(w: World, e: Event) -> World {
    match e {
        Event::Collect => collected(w),
        Event::Capture { mutator, object, slot, onto_stack } => World {
            stack: if onto_stack {
                capture(w.phase, w.stack, (w.refs)(object)[slot])
            } else {
                w.stack
            },
            remembered: if onto_stack {
                w.remembered
            } else {
                capture(w.phase, w.remembered, (w.refs)(object)[slot])
            },
            writing: w.writing.insert(mutator, (object, slot)),
            ..w
        },
        Event::Record { id } => World { remembered: capture(w.phase, w.remembered, id), ..w },
        Event::Overwrite { mutator, target } => World {
            refs: with_slot(w.refs, w.writing[mutator].0, w.writing[mutator].1, target),
            writing: w.writing.remove(mutator),
            ..w
        },
        Event::Link { object, target } => World {
            refs: with_new_slot(w.refs, object, target),
            ..w
        },
        Event::Shade { id } => World { stack: w.stack.push(id), ..w },
        Event::EndMarking { phase } => World { phase, ..w },
    }
}

/// The world after a run of events.
pub open spec fn after_all(w: World, events: Seq<Event>) -> World
    decreases events.len(),
{
    if events.len() == 0 {
        w
    } else {
        after(after_all(w, events.drop_last()), events.last())
    }
}

/// Whether a run of events can happen, one after the other.
pub open spec fn can_all_happen(w: World, events: Seq<Event>) -> bool
    decreases events.len(),
{
    events.len() > 0 ==> {
        &&& can_all_happen(w, events.drop_last())
        &&& can_happen(after_all(w, events.drop_last()), events.last())
    }
}

/// The world when marking starts: the collector is fresh, the phase is `Marking`, the roots
/// are on the stack, and no mutator is about to write.
pub open spec fn marking_starts(w: World, roots: Set<u32>) -> bool {
    &&& w.marker == fresh_marker()
    &&& w.phase == Phase::Marking
    &&& w.writing.dom() == Set::<nat>::empty()
    &&& forall|r: u32| #[trigger] roots.contains(r) ==> w.stack.contains(r)
}

/// Whether `id` is grey or black: the collector has it, or it waits for the collector.
pub open spec fn is_shaded(w: World, id: u32) -> bool {
    ||| w.marker.black.contains(id)
    ||| w.marker.pending.contains(id)
    ||| w.stack.contains(id)
    ||| w.remembered.contains(id)
}

/// Whether the collector has read the references of `id`.
pub open spec fn is_scanned(w: World, id: u32) -> bool {
    w.marker.black.contains(id) && w.marker.point != Point::Scan(id)
}

/// Whether the target that a slot held when marking started is safe: it is shaded, or the
/// slot still holds it and has yet to be read.
pub open spec fn slot_is_safe(
    w: World,
    snapshot: spec_fn(u32) -> Seq<u32>,
    object: u32,
    slot: int,
) -> bool {
    ||| is_shaded(w, snapshot(object)[slot])
    ||| {
        &&& !is_scanned(w, object)
        &&& slot < (w.refs)(object).len()
        &&& (w.refs)(object)[slot] == snapshot(object)[slot]
    }
}

/// What holds from the start of marking to its end.
pub open spec fn marking_inv(w: World, roots: Set<u32>, snapshot: spec_fn(u32) -> Seq<u32>) -> bool {
    &&& marker_wf(w.marker)
    &&& forall|r: u32| #[trigger] roots.contains(r) ==> is_shaded(w, r)
    &&& forall|x: u32, j: int|
        0 <= j < snapshot(x).len() ==> #[trigger] slot_is_safe(w, snapshot, x, j)
    &&& forall|x: u32| snapshot(x).len() <= #[trigger] (w.refs)(x).len()
    &&& forall|t: nat| #[trigger]
        w.writing.dom().contains(t) ==> {
            let (x, j) = w.writing[t];
            &&& 0 <= j < (w.refs)(x).len()
            &&& j < snapshot(x).len() ==> is_shaded(w, snapshot(x)[j])
        }
    &&& w.phase != Phase::Marking ==> w.writing.dom() == Set::<nat>::empty()
    &&& w.marker.point is FinalDrain || w.marker.point is FinalFlush || w.marker.point
        is FinalCheck || w.marker.point is Done ==> w.phase != Phase::Marking
    &&& w.marker.point is FinalCheck || w.marker.point is Done ==> w.remembered.len() == 0
    &&& w.marker.point is Done ==> w.stack.len() == 0
}

/// Nothing that is shaded is ever forgotten.
pub proof fn shaded_stays_shaded(w: World, e: Event, id: u32)
    requires
        marker_wf(w.marker),
        can_happen(w, e),
        is_shaded(w, id),
    ensures
        is_shaded(after(w, e), id),
{
    let p = after(w, e);
    let m = w.marker;
    if w.stack.contains(id) {
        let k = w.stack.index_of(id);
        assert(w.stack[k] == id);
        if e is Collect && m.point == Point::Pop {
            if k < w.stack.len() - 1 {
                assert(p.stack[k] == id);
            }
        } else {
            assert(p.stack[k] == id);
        }
    } else if w.remembered.contains(id) {
        let k = w.remembered.index_of(id);
        assert(w.remembered[k] == id);
        if e is Collect && (m.point == Point::Drain || m.point == Point::FinalDrain) {
            assert(p.marker.pending[k] == id);
        } else {
            assert(p.remembered[k] == id);
        }
    } else if m.pending.contains(id) {
        let k = m.pending.index_of(id);
        assert(m.pending[k] == id);
        if e is Collect && (m.point == Point::Flush || m.point == Point::FinalFlush) {
            assert(p.stack[w.stack.len() + k] == id);
        } else if e is Collect && m.point == Point::Push {
            if k > 0 {
                assert(p.marker.pending[k - 1] == id);
            } else if !m.black.contains(id) {
                assert(p.stack.last() == id);
            }
        }
    }
}

/// When the collector is done, whatever was shaded is black.
pub proof fn shaded_is_black_at_the_end(
    w: World,
    roots: Set<u32>,
    snapshot: spec_fn(u32) -> Seq<u32>,
    id: u32,
)
    requires
        marking_inv(w, roots, snapshot),
        w.marker.point == Point::Done,
        is_shaded(w, id),
    ensures
        w.marker.black.contains(id),
{
}

/// Every event that can happen keeps what holds during marking.
pub proof fn marking_inv_is_kept(
    w: World,
    e: Event,
    roots: Set<u32>,
    snapshot: spec_fn(u32) -> Seq<u32>,
)
    requires
        marking_inv(w, roots, snapshot),
        can_happen(w, e),
    ensures
        marking_inv(after(w, e), roots, snapshot),
{
    let p = after(w, e);
    let m = w.marker;
    assert forall|id: u32| is_shaded(w, id) implies is_shaded(p, id) by {
        shaded_stays_shaded(w, e, id);
    }
    assert forall|x: u32, j: int| 0 <= j < snapshot(x).len() implies #[trigger] slot_is_safe(
        p,
        snapshot,
        x,
        j,
    ) by {
        assert(slot_is_safe(w, snapshot, x, j));
        if !is_shaded(w, snapshot(x)[j]) {
            match e {
                Event::Collect => {
                    if m.point == Point::Scan(x) {
                        assert(p.marker.pending[j] == snapshot(x)[j]);
                    }
                },
                Event::Overwrite { mutator, target } => {
                    let (y, k) = w.writing[mutator];
                    assert(w.writing.dom().contains(mutator));
                    assert(y != x || k != j);
                },
                _ => {},
            }
        }
    }
    if let Event::Capture { mutator, object, slot, onto_stack } = e {
        if slot < snapshot(object).len() {
            assert(slot_is_safe(w, snapshot, object, slot));
            if onto_stack {
                assert(p.stack.last() == (w.refs)(object)[slot]);
            } else {
                assert(p.remembered.last() == (w.refs)(object)[slot]);
            }
            assert(is_shaded(p, (w.refs)(object)[slot]));
        }
    }
    assert forall|t: nat| #[trigger] p.writing.dom().contains(t) implies {
        let (x, j) = p.writing[t];
        &&& 0 <= j < (p.refs)(x).len()
        &&& j < snapshot(x).len() ==> is_shaded(p, snapshot(x)[j])
    } by {
        if w.writing.dom().contains(t) {
            let (x, j) = w.writing[t];
            assert(0 <= j < (w.refs)(x).len());
        }
    }
    assert forall|x: u32| snapshot(x).len() <= #[trigger] (p.refs)(x).len() by {
        assert(snapshot(x).len() <= (w.refs)(x).len());
    }
}

/// A world in which marking starts has what holds during marking.
pub proof fn marking_inv_holds_at_start(w: World, roots: Set<u32>)
    requires
        marking_starts(w, roots),
    ensures
        marking_inv(w, roots, w.refs),
{
    let snapshot = w.refs;
    assert forall|x: u32, j: int| 0 <= j < snapshot(x).len() implies #[trigger] slot_is_safe(
        w,
        snapshot,
        x,
        j,
    ) by {
        assert(!is_scanned(w, x));
    }
}

/// What holds during marking holds after every run of events.
pub proof fn marking_inv_is_kept_by_all(
    w: World,
    events: Seq<Event>,
    roots: Set<u32>,
    snapshot: spec_fn(u32) -> Seq<u32>,
)
    requires
        marking_inv(w, roots, snapshot),
        can_all_happen(w, events),
    ensures
        marking_inv(after_all(w, events), roots, snapshot),
    decreases events.len(),
{
    if events.len() > 0 {
        marking_inv_is_kept_by_all(w, events.drop_last(), roots, snapshot);
        marking_inv_is_kept(after_all(w, events.drop_last()), events.last(), roots, snapshot);
    }
}

/// The snapshot guarantee: every object that was reachable from the roots when marking started
/// is black when the collector is done, whatever the mutators did and in whatever order.
pub proof fn snapshot_survives_marking(w: World, events: Seq<Event>, roots: Set<u32>, id: u32)
    requires
        marking_starts(w, roots),
        can_all_happen(w, events),
        after_all(w, events).marker.point == Point::Done,
        reachable(roots, w.refs, id),
    ensures
        after_all(w, events).marker.black.contains(id),
{
    let end = after_all(w, events);
    let black = end.marker.black;
    marking_inv_holds_at_start(w, roots);
    marking_inv_is_kept_by_all(w, events, roots, w.refs);
    assert forall|r: u32| roots.contains(r) implies black.contains(r) by {
        shaded_is_black_at_the_end(end, roots, w.refs, r);
    }
    black_holds_reach_at_the_end(end, roots, w.refs, roots, id);
}

/// When the collector is done, black holds all that its members reached when marking started.
proof fn black_holds_reach_at_the_end(
    w: World,
    roots: Set<u32>,
    snapshot: spec_fn(u32) -> Seq<u32>,
    sources: Set<u32>,
    id: u32,
)
    requires
        marking_inv(w, roots, snapshot),
        w.marker.point == Point::Done,
        sources.subset_of(w.marker.black),
        reachable(sources, snapshot, id),
    ensures
        w.marker.black.contains(id),
{
    let black = w.marker.black;
    assert forall|x: u32, y: u32|
        black.contains(x) && #[trigger] snapshot(x).contains(y) implies #[trigger] black.contains(
        y,
    ) by {
        let j = snapshot(x).index_of(y);
        assert(slot_is_safe(w, snapshot, x, j));
        shaded_is_black_at_the_end(w, roots, snapshot, y);
    }
    closed_set_holds_reach(sources, snapshot, black, id);
}

/// The ids that an event hands to the collector.
pub open spec fn handed_over(w: World, e: Event) -> Set<u32> {
    match e {
        Event::Record { id } => if w.phase == Phase::Marking {
            set![id]
        } else {
            Set::empty()
        },
        Event::Shade { id } => set![id],
        Event::Capture { mutator, object, slot, onto_stack } => set![(w.refs)(object)[slot]],
        _ => Set::empty(),
    }
}

/// No capture is missed: an id that was recorded or captured during marking, or that somebody
/// put onto the stack, is black when the collector is done, with all that it reached when
/// marking started.
pub proof fn captures_survive_marking(
    w: World,
    before: Seq<Event>,
    e: Event,
    rest: Seq<Event>,
    roots: Set<u32>,
)
    requires
        marking_starts(w, roots),
        can_all_happen(w, before.push(e)),
        can_all_happen(after_all(w, before.push(e)), rest),
        after_all(after_all(w, before.push(e)), rest).marker.point == Point::Done,
    ensures
        ({
            let black = after_all(after_all(w, before.push(e)), rest).marker.black;
            let ids = handed_over(after_all(w, before), e);
            ids.subset_of(black) && reach_set(ids, w.refs).subset_of(black)
        }),
{
    let mid = after_all(w, before);
    let next = after_all(w, before.push(e));
    assert(before.push(e).drop_last() =~= before);
    assert(next == after(mid, e));
    marking_inv_holds_at_start(w, roots);
    marking_inv_is_kept_by_all(w, before, roots, w.refs);
    marking_inv_is_kept(mid, e, roots, w.refs);
    marking_inv_is_kept_by_all(next, rest, roots, w.refs);
    let end = after_all(next, rest);
    let ids = handed_over(mid, e);
    assert forall|id: u32| ids.contains(id) implies end.marker.black.contains(id) by {
        assert(is_shaded(next, id)) by {
            if e is Record || e matches Event::Capture { mutator, object, slot, onto_stack: false } {
                assert(next.remembered.last() == id);
            } else {
                assert(next.stack.last() == id);
            }
        }
        shaded_stays_shaded_in_all(next, rest, id, roots, w.refs);
        shaded_is_black_at_the_end(end, roots, w.refs, id);
    }
    assert forall|id: u32| reach_set(ids, w.refs).contains(
        id,
    ) implies end.marker.black.contains(id) by {
        black_holds_reach_at_the_end(end, roots, w.refs, ids, id);
    }
}

proof fn shaded_stays_shaded_in_all(
    w: World,
    events: Seq<Event>,
    id: u32,
    roots: Set<u32>,
    snapshot: spec_fn(u32) -> Seq<u32>,
)
    requires
        marking_inv(w, roots, snapshot),
        can_all_happen(w, events),
        is_shaded(w, id),
    ensures
        is_shaded(after_all(w, events), id),
    decreases events.len(),
{
    if events.len() > 0 {
        let fewer = events.drop_last();
        shaded_stays_shaded_in_all(w, fewer, id, roots, snapshot);
        marking_inv_is_kept_by_all(w, fewer, roots, snapshot);
        shaded_stays_shaded(after_all(w, fewer), events.last(), id);
    }
}

/// What holds of a collector while no reference changes: it has shaded every source, nothing
/// but what the sources reach, and all that it has read.
pub open spec fn tracks(w: World, sources: Set<u32>) -> bool {
    &&& marker_wf(w.marker)
    &&& forall|id: u32| #[trigger] sources.contains(id) ==> is_shaded(w, id)
    &&& forall|id: u32| #[trigger] is_shaded(w, id) ==> reachable(sources, w.refs, id)
    &&& forall|x: u32, y: u32|
        #[trigger] is_scanned(w, x) && #[trigger] (w.refs)(x).contains(y) ==> is_shaded(w, y)
}

/// The collector's own steps keep track of the sources that it has.
pub proof fn tracking_is_kept(w: World, sources: Set<u32>)
    requires
        tracks(w, sources),
        w.marker.point != Point::Done,
    ensures
        tracks(collected(w), sources),
{
    let p = collected(w);
    let m = w.marker;
    assert forall|id: u32| is_shaded(w, id) implies is_shaded(p, id) by {
        shaded_stays_shaded(w, Event::Collect, id);
    }
    assert forall|id: u32| #[trigger] is_shaded(p, id) implies reachable(
        sources,
        w.refs,
        id,
    ) by {
        if !is_shaded(w, id) {
            if m.point is Scan {
                let x = m.point->Scan_0;
                assert(is_shaded(w, x));
                edge_extends_reach(sources, w.refs, x, id);
            } else {
                nothing_new_is_shaded(w, id);
            }
        }
    }
    assert forall|x: u32, y: u32|
        #[trigger] is_scanned(p, x) && #[trigger] (w.refs)(x).contains(y) implies is_shaded(p, y) by {
        if !is_scanned(w, x) {
            assert(m.point == Point::Scan(x));
            assert(p.marker.pending.contains(y));
        }
    }
}

/// Only a scan shades anything.
proof fn nothing_new_is_shaded(w: World, id: u32)
    requires
        marker_wf(w.marker),
        !(w.marker.point is Scan),
        is_shaded(collected(w), id),
    ensures
        is_shaded(w, id),
{
    let p = collected(w);
    let m = w.marker;
    if p.stack.contains(id) {
        let k = p.stack.index_of(id);
        assert(p.stack[k] == id);
        if k < w.stack.len() {
            assert(w.stack[k] == id);
        } else if m.point == Point::Push {
            assert(m.pending[0] == id);
        } else {
            assert(m.pending[k - w.stack.len()] == id);
        }
    } else if p.marker.pending.contains(id) {
        let k = p.marker.pending.index_of(id);
        assert(p.marker.pending[k] == id);
        if m.point == Point::Push {
            assert(m.pending[k + 1] == id);
        } else if m.point == Point::Drain || m.point == Point::FinalDrain {
            assert(w.remembered[k] == id);
        }
    } else if p.marker.black.contains(id) && !m.black.contains(id) {
        assert(w.stack.last() == id);
    }
}

/// Whoever shades, records or captures an id adds it to the sources.
pub proof fn tracking_takes_new_sources(w: World, e: Event, sources: Set<u32>, id: u32)
    requires
        tracks(w, sources),
        can_happen(w, e),
        match e {
            Event::Shade { id: shaded } => id == shaded,
            Event::Record { id: recorded } => id == recorded && w.phase == Phase::Marking,
            Event::Capture { mutator, object, slot, onto_stack } => id == (w.refs)(object)[slot],
            _ => false,
        },
    ensures
        tracks(after(w, e), sources.insert(id)),
{
    let p = after(w, e);
    let more = sources.insert(id);
    assert forall|x: u32| is_shaded(w, x) implies is_shaded(p, x) by {
        shaded_stays_shaded(w, e, x);
    }
    assert(is_shaded(p, id)) by {
        if e is Record || e matches Event::Capture { mutator, object, slot, onto_stack: false } {
            assert(p.remembered.last() == id);
        } else {
            assert(p.stack.last() == id);
        }
    }
    assert forall|x: u32| #[trigger] is_shaded(p, x) implies reachable(more, w.refs, x) by {
        if x == id {
            start_is_reachable(more, w.refs, x);
        } else {
            if p.stack.contains(x) {
                let k = p.stack.index_of(x);
                assert(p.stack[k] == x);
                assert(k < w.stack.len() ==> w.stack[k] == x);
            } else if p.remembered.contains(x) {
                let k = p.remembered.index_of(x);
                assert(p.remembered[k] == x);
                assert(k < w.remembered.len() ==> w.remembered[k] == x);
            }
            assert(is_shaded(w, x));
            reach_is_monotone(sources, more, w.refs, x);
        }
    }
    assert forall|x: u32, y: u32|
        #[trigger] is_scanned(p, x) && #[trigger] (p.refs)(x).contains(y) implies is_shaded(p, y) by {
        assert(is_scanned(w, x));
        assert(is_shaded(w, y));
    }
}

/// Whether nothing waits for the collector any more.
pub open spec fn is_settled(w: World) -> bool {
    w.marker.pending.len() == 0 && w.stack.len() == 0 && w.remembered.len() == 0
}

/// With nothing left to scan, the black set is what the sources reach, exactly.
pub proof fn settled_black_is_what_sources_reach(w: World, sources: Set<u32>)
    requires
        tracks(w, sources),
        is_settled(w),
        !(w.marker.point is Scan),
    ensures
        w.marker.black == reach_set(sources, w.refs),
{
    let black = w.marker.black;
    assert forall|id: u32| reach_set(sources, w.refs).contains(id) implies black.contains(id) by {
        assert forall|x: u32| sources.contains(x) implies black.contains(x) by {
            assert(is_shaded(w, x));
        }
        assert forall|x: u32, y: u32|
            black.contains(x) && #[trigger] (w.refs)(x).contains(
                y,
            ) implies #[trigger] black.contains(y) by {
            assert(is_scanned(w, x));
            assert(is_shaded(w, y));
        }
        closed_set_holds_reach(sources, w.refs, black, id);
    }
    assert forall|id: u32| black.contains(id) implies reach_set(sources, w.refs).contains(id) by {
        assert(is_shaded(w, id));
    }
    assert(black =~= reach_set(sources, w.refs));
}

/// Which of `ids` the collector has yet to read.
pub open spec fn unscanned(w: World, ids: Set<u32>) -> Set<u32> {
    ids.filter(|id: u32| !is_scanned(w, id))
}

/// How much waits for the collector; the further from the stack, the more it counts.
pub open spec fn backlog(w: World) -> nat {
    3 * w.remembered.len() + 2 * w.marker.pending.len() + w.stack.len()
}

/// How far the collector is from its end, if it finds nothing more to do.
pub open spec fn distance(w: World) -> nat {
    let idle = w.stack.len() == 0;
    match w.marker.point {
        Point::Pause => if w.phase == Phase::Marking {
            0
        } else {
            11
        },
        Point::Check => if idle {
            3
        } else {
            10
        },
        Point::FinalDrain => if idle {
            2
        } else {
            9
        },
        Point::FinalCheck => if idle {
            1
        } else {
            8
        },
        Point::Drain => 6,
        Point::Pop => 4,
        _ => 0,
    }
}

/// Each step brings the collector closer to its end once the phase has left `Marking`, and to its
/// next pause before that, so it gets there: there is less to read, or as much to read and less
/// waiting, or both stay and it is nearer to the final check or the pause.
pub proof fn collector_makes_progress(w: World, ids: Set<u32>)
    requires
        marker_wf(w.marker),
        w.marker.point != Point::Done,
        w.marker.point == Point::Pause ==> w.phase != Phase::Marking,
        ids.finite(),
        w.marker.black.subset_of(ids),
    ensures
        ({
            let p = collected(w);
            let left = unscanned(p, ids).len();
            ||| left < unscanned(w, ids).len()
            ||| {
                &&& left == unscanned(w, ids).len()
                &&& backlog(p) < backlog(w) || backlog(p) == backlog(w) && distance(p) < distance(w)
            }
        }),
{
    let p = collected(w);
    if w.marker.point is Scan {
        let id = w.marker.point->Scan_0;
        assert(unscanned(w, ids).contains(id));
        vstd::set_lib::lemma_len_subset(unscanned(w, ids), ids);
        assert(unscanned(p, ids) =~= unscanned(w, ids).remove(id));
    } else {
        assert(unscanned(p, ids) =~= unscanned(w, ids));
    }
}

/// What holds of a collector that runs to its end after marking, undisturbed.
pub closed spec fn is_finishing(w: World, sources: Set<u32>) -> bool {
    &&& tracks(w, sources)
    &&& w.phase != Phase::Marking
    &&& w.marker.point is FinalCheck || w.marker.point is Done ==> w.remembered.len() == 0
    &&& w.marker.point is Done ==> w.stack.len() == 0
}

/// A fresh collector finishes for all that waits on the stack and in the remembered set.
pub proof fn finishing_starts(w: World)
    requires
        w.marker == fresh_marker(),
        w.phase != Phase::Marking,
    ensures
        is_finishing(w, w.stack.to_set().union(w.remembered.to_set())),
{
    let sources = w.stack.to_set().union(w.remembered.to_set());
    assert forall|id: u32| #[trigger] is_shaded(w, id) implies reachable(
        sources,
        w.refs,
        id,
    ) by {
        assert(sources.contains(id));
        start_is_reachable(sources, w.refs, id);
    }
}

/// Each step of a collector that finishes brings it closer to its end.
pub proof fn finishing_goes_on(w: World, sources: Set<u32>)
    requires
        is_finishing(w, sources),
        w.marker.point != Point::Done,
    ensures
        is_finishing(collected(w), sources),
        ({
            let p = collected(w);
            let ids = reach_set(sources, w.refs);
            let left = unscanned(p, ids).len();
            ||| left < unscanned(w, ids).len()
            ||| {
                &&& left == unscanned(w, ids).len()
                &&& backlog(p) < backlog(w) || backlog(p) == backlog(w) && distance(p) < distance(w)
            }
        }),
{
    let ids = reach_set(sources, w.refs);
    tracking_is_kept(w, sources);
    black_is_reached(w, sources);
    ids_of_32_bits_are_finite(ids);
    collector_makes_progress(w, ids);
}

proof fn black_is_reached(w: World, sources: Set<u32>)
    requires
        tracks(w, sources),
    ensures
        w.marker.black.subset_of(reach_set(sources, w.refs)),
{
    assert forall|id: u32| w.marker.black.contains(id) implies reach_set(
        sources,
        w.refs,
    ).contains(id) by {
        assert(is_shaded(w, id));
    }
}

/// A collector that has finished has blackened what the sources reach, exactly, and left
/// nothing behind.
pub proof fn finishing_ends(w: World, sources: Set<u32>)
    requires
        is_finishing(w, sources),
        w.marker.point == Point::Done,
    ensures
        w.marker.black == reach_set(sources, w.refs),
        is_settled(w),
{
    settled_black_is_what_sources_reach(w, sources);
}

/// Each object is scanned at most once, however often it is captured: once its references were
/// read it stays black, and they are never read again.
pub proof fn object_is_scanned_at_most_once(w: World, events: Seq<Event>, id: u32)
    requires
        is_scanned(w, id),
        can_all_happen(w, events),
    ensures
        is_scanned(after_all(w, events), id),
    decreases events.len(),
{
    if events.len() > 0 {
        object_is_scanned_at_most_once(w, events.drop_last(), id);
    }
}

/// Whether an event leaves every reference as it is.
pub open spec fn keeps_references(e: Event) -> bool {
    !(e is Overwrite || e is Link)
}

/// All that a run hands to the collector: what waits on the stack and in the remembered set
/// when it starts, and the ids that are recorded, shaded or captured in its course.
pub open spec fn sources_of_run(w: World, events: Seq<Event>) -> Set<u32>
    decreases events.len(),
{
    if events.len() == 0 {
        w.stack.to_set().union(w.remembered.to_set())
    } else {
        sources_of_run(w, events.drop_last()).union(
            handed_over(after_all(w, events.drop_last()), events.last()),
        )
    }
}

/// What holds of a collector that others hand ids to while no reference changes.
spec fn runs_on(w: World, sources: Set<u32>) -> bool {
    &&& tracks(w, sources)
    &&& w.marker.point is FinalDrain || w.marker.point is FinalFlush || w.marker.point
        is FinalCheck || w.marker.point is Done ==> w.phase != Phase::Marking
    &&& w.marker.point is FinalCheck || w.marker.point is Done ==> w.remembered.len() == 0
    &&& w.marker.point is Done ==> w.stack.len() == 0
}

proof fn run_goes_on(w: World, e: Event, sources: Set<u32>)
    requires
        runs_on(w, sources),
        can_happen(w, e),
        keeps_references(e),
    ensures
        runs_on(after(w, e), sources.union(handed_over(w, e))),
        after(w, e).refs == w.refs,
{
    let more = sources.union(handed_over(w, e));
    match e {
        Event::Collect => {
            tracking_is_kept(w, sources);
            assert(more =~= sources);
        },
        Event::Record { id } => {
            if w.phase == Phase::Marking {
                tracking_takes_new_sources(w, e, sources, id);
                assert(more =~= sources.insert(id));
            } else {
                assert(more =~= sources);
            }
        },
        Event::Shade { id } => {
            tracking_takes_new_sources(w, e, sources, id);
            assert(more =~= sources.insert(id));
        },
        Event::Capture { mutator, object, slot, onto_stack } => {
            let id = (w.refs)(object)[slot];
            tracking_takes_new_sources(w, e, sources, id);
            assert(more =~= sources.insert(id));
        },
        Event::EndMarking { phase } => {
            phase_does_not_matter(w, phase, sources);
            assert(more =~= sources);
        },
        _ => {},
    }
}

/// The phase has no part in what the collector has shaded and scanned.
proof fn phase_does_not_matter(w: World, phase: Phase, sources: Set<u32>)
    requires
        tracks(w, sources),
    ensures
        tracks(World { phase, ..w }, sources),
{
    let p = World { phase, ..w };
    assert forall|id: u32| is_shaded(p, id) == is_shaded(w, id) by {}
    assert forall|id: u32| is_scanned(p, id) == is_scanned(w, id) by {}
}

proof fn run_goes_on_in_all(w: World, events: Seq<Event>)
    requires
        w.marker == fresh_marker(),
        can_all_happen(w, events),
        forall|i: int| 0 <= i < events.len() ==> keeps_references(#[trigger] events[i]),
    ensures
        runs_on(after_all(w, events), sources_of_run(w, events)),
        after_all(w, events).refs == w.refs,
    decreases events.len(),
{
    if events.len() == 0 {
        let sources = sources_of_run(w, events);
        assert forall|id: u32| #[trigger] is_shaded(w, id) implies reachable(
            sources,
            w.refs,
            id,
        ) by {
            assert(sources.contains(id));
            start_is_reachable(sources, w.refs, id);
        }
    } else {
        let fewer = events.drop_last();
        assert forall|i: int| 0 <= i < fewer.len() implies keeps_references(
            #[trigger] fewer[i],
        ) by {
            assert(fewer[i] == events[i]);
        }
        assert(keeps_references(events[events.len() - 1]));
        run_goes_on_in_all(w, fewer);
        run_goes_on(after_all(w, fewer), events.last(), sources_of_run(w, fewer));
    }
}

/// What a run leaves black: from a fresh collector to its end, with ids recorded, shaded and
/// captured at whatever moments and no reference changed, it is all that the sources of the run
/// reach, and nothing else.
pub proof fn run_blackens_what_it_was_handed(w: World, events: Seq<Event>)
    requires
        w.marker == fresh_marker(),
        can_all_happen(w, events),
        forall|i: int| 0 <= i < events.len() ==> keeps_references(#[trigger] events[i]),
        after_all(w, events).marker.point == Point::Done,
    ensures
        after_all(w, events).marker.black == reach_set(sources_of_run(w, events), w.refs),
        is_settled(after_all(w, events)),
{
    run_goes_on_in_all(w, events);
    settled_black_is_what_sources_reach(after_all(w, events), sources_of_run(w, events));
}

/// What each step of the collector does, in terms of what it shares with the mutators.
pub proof fn collector_steps_one_by_one(w: World)
    ensures
        ({
            let m = w.marker;
            let p = collected(w);
            let n = p.marker;
            &&& p.phase == w.phase
            &&& p.refs == w.refs
            &&& p.writing == w.writing
            // A drain takes all that was recorded, in order, and leaves none.
            &&& m.point is Drain || m.point is FinalDrain ==> {
                &&& n.pending == w.remembered
                &&& p.remembered.len() == 0
                &&& p.stack == w.stack
                &&& n.black == m.black
            }
            &&& m.point is Drain ==> n.point == (if w.remembered.len() > 0 {
                Point::Flush
            } else {
                Point::Pop
            })
            &&& m.point is FinalDrain ==> n.point == (if w.remembered.len() > 0 {
                Point::FinalFlush
            } else {
                Point::FinalCheck
            })
            // A flush pushes all that was drained, in order.
            &&& m.point is Flush || m.point is FinalFlush ==> {
                &&& p.stack == w.stack + m.pending
                &&& n.pending.len() == 0
                &&& p.remembered == w.remembered
                &&& n.black == m.black
                &&& n.point == (if m.point is Flush {
                    Point::Pop
                } else {
                    Point::Drain
                })
            }
            // A pop takes the top of the stack; it is scanned exactly if it was not black.
            &&& m.point is Pop ==> {
                &&& p.remembered == w.remembered
                &&& n.pending == m.pending
                &&& w.stack.len() == 0 ==> p.stack.len() == 0 && n.black == m.black
                    && n.point is Check
                &&& w.stack.len() > 0 ==> p.stack == w.stack.drop_last() && n.black
                    == m.black.insert(w.stack.last()) && n.point == (if m.black.contains(
                    w.stack.last(),
                ) {
                    Point::Drain
                } else {
                    Point::Scan(w.stack.last())
                })
            }
            // A scan reads all references of the object.
            &&& m.point matches Point::Scan(id) ==> {
                &&& n.pending == (w.refs)(id)
                &&& p.stack == w.stack
                &&& p.remembered == w.remembered
                &&& n.black == m.black
                &&& n.point == (if (w.refs)(id).len() > 0 {
                    Point::Push
                } else {
                    Point::Drain
                })
            }
            // Each of them is pushed exactly if it is not black.
            &&& m.point is Push && m.pending.len() > 0 ==> {
                &&& p.stack == (if m.black.contains(m.pending[0]) {
                    w.stack
                } else {
                    w.stack.push(m.pending[0])
                })
                &&& n.pending == m.pending.drop_first()
                &&& p.remembered == w.remembered
                &&& n.black == m.black
                &&& n.point == (if m.pending.len() > 1 {
                    Point::Push
                } else {
                    Point::Drain
                })
            }
            // The rest looks, and decides what is next.
            &&& m.point is Check || m.point is FinalCheck || m.point is Pause || m.point is Done
                ==> {
                &&& p.stack == w.stack
                &&& p.remembered == w.remembered
                &&& n.pending == m.pending
                &&& n.black == m.black
            }
            &&& m.point is Check ==> n.point == (if w.phase == Phase::Marking {
                Point::Pause
            } else {
                Point::FinalDrain
            })
            &&& m.point is FinalCheck ==> n.point == (if w.stack.len() == 0 {
                Point::Done
            } else {
                Point::Drain
            })
            &&& m.point is Pause ==> n.point is Drain
            &&& m.point is Done ==> n.point is Done
        }),
{
    if w.marker.point is Pop && w.stack.len() > 0 && w.marker.black.contains(w.stack.last()) {
        assert(w.marker.black.insert(w.stack.last()) =~= w.marker.black);
    }
}

/// What holds of a collector that nobody disturbs while marking goes on.
spec fn marks_alone(w: World, sources: Set<u32>) -> bool {
    &&& tracks(w, sources)
    &&& w.phase == Phase::Marking
    &&& match w.marker.point {
        Point::Drain => true,
        Point::Check | Point::Pause => w.remembered.len() == 0 && w.stack.len() == 0,
        Point::Flush | Point::Pop | Point::Scan(_) | Point::Push => w.remembered.len() == 0,
        _ => false,
    }
}

proof fn marking_alone_goes_on(w: World, events: Seq<Event>)
    requires
        w.marker == fresh_marker(),
        w.phase == Phase::Marking,
        forall|i: int| 0 <= i < events.len() ==> (#[trigger] events[i]) is Collect,
        can_all_happen(w, events),
    ensures
        marks_alone(after_all(w, events), sources_of_run(w, Seq::empty())),
        after_all(w, events).refs == w.refs,
    decreases events.len(),
{
    let sources = sources_of_run(w, Seq::empty());
    if events.len() == 0 {
        run_goes_on_in_all(w, events);
        assert(events =~= Seq::empty());
    } else {
        let fewer = events.drop_last();
        assert forall|i: int| 0 <= i < fewer.len() implies (#[trigger] fewer[i]) is Collect by {
            assert(fewer[i] == events[i]);
        }
        assert(events[events.len() - 1] is Collect);
        marking_alone_goes_on(w, fewer);
        tracking_is_kept(after_all(w, fewer), sources);
    }
}

/// The collector does its work while marking goes on: when it pauses, and nobody has disturbed it,
/// black is already all that the stack and the remembered set reached, and nothing waits.
pub proof fn undisturbed_collector_pauses_when_all_is_black(w: World, events: Seq<Event>)
    requires
        w.marker == fresh_marker(),
        w.phase == Phase::Marking,
        forall|i: int| 0 <= i < events.len() ==> (#[trigger] events[i]) is Collect,
        can_all_happen(w, events),
        after_all(w, events).marker.point == Point::Pause,
    ensures
        after_all(w, events).marker.black == reach_set(
            w.stack.to_set().union(w.remembered.to_set()),
            w.refs,
        ),
        is_settled(after_all(w, events)),
{
    marking_alone_goes_on(w, events);
    settled_black_is_what_sources_reach(after_all(w, events), sources_of_run(w, Seq::empty()));
}

/// A call of the barrier outside marking changes nothing, and in whatever phase it comes nothing
/// that is shaded is forgotten.
pub proof fn barrier_calls_forget_nothing(w: World, id: u32, shaded: u32)
    ensures
        can_happen(w, Event::Record { id }),
        w.phase != Phase::Marking ==> after(w, Event::Record { id }) == w,
        is_shaded(w, shaded) ==> is_shaded(after(w, Event::Record { id }), shaded),
        w.phase == Phase::Marking ==> is_shaded(after(w, Event::Record { id }), id),
{
    let p = after(w, Event::Record { id });
    if w.remembered.contains(shaded) {
        assert(p.remembered[w.remembered.index_of(shaded)] == shaded);
    }
    if w.phase == Phase::Marking {
        assert(p.remembered.last() == id);
    }
}

} // verus!
