//! ABA-safe Treiber stack via hazard pointers + deferred reclamation.
//!
//! Three differences from the [`TreiberStack`](crate::TreiberStack):
//!
//! 1. **Pop protects the head pointer** in a [`HazardSlot`](crate::HazardSlot)
//!    before dereferencing. Other threads cannot reclaim the node while
//!    the slot publishes it as a hazard.
//! 2. **Successful pops retire** the popped node into a per-stack queue
//!    rather than freeing it immediately. The retire path walks the
//!    queue and frees only entries no thread is currently hazarding.
//! 3. **Verify after protect.** Between loading `head` and publishing
//!    the hazard, the head can change. The pop loop reloads after
//!    `protect` and retries on mismatch - this is the load-bearing
//!    correctness step.
//!
//! Tradeoffs: pop is now slower (one slot acquisition + one extra atomic
//! load per attempt) but ABA-free. Retire scans cost `O(retired *
//! hazards_in_use)` and are amortized over `RETIRE_THRESHOLD` retires.
//!
//! An operation is a sequence of accesses to what the threads share, and
//! other threads run between any two of them. So an operation in progress is
//! a value, a [`StackOp`], and [`SafeTreiberStack::step`] takes its next
//! access. [`push`](SafeTreiberStack::push), [`pop`](SafeTreiberStack::pop)
//! and [`force_reclaim`](SafeTreiberStack::force_reclaim) take all of them
//! at once.

#[allow(unused_imports)]
use crate::hazard::{
    first_unused, first_unused_is_first, is_hazard, is_published, published,
    published_slot_by_slot, snapshot_lists_hazards, unused_slots, SlotState,
};
use crate::hazard::{HazardRegistry, HazardSlot, MAX_HAZARDS};
use crate::nodes::NodeList;
#[allow(unused_imports)]
use crate::nodes::{
    chain_with_another, detached_nodes_do_not_matter, is_detached, list_wf, null_head_means_empty, popped_node,
    popping_takes_value, pushed_node, pushing_adds_value, values, with_node, without_node,
    ListView, Node,
};
use vstd::prelude::*;

verus! {

/// Reclaim retired nodes after the queue grows past this many entries.
pub const RETIRE_THRESHOLD: usize = 64;

pub struct SafeTreiberStack {
    list: NodeList,
    hazards: HazardRegistry,
    retired: Vec<usize>,
    /// Whether some operation holds the lock on the retired queue.
    locked: bool,
}

/// What a [`SafeTreiberStack`] holds.
pub struct SafeView {
    pub list: ListView,
    /// What each hazard slot is used for.
    pub hazards: Seq<SlotState>,
    /// The nodes that were popped and not yet freed.
    pub retired: Seq<usize>,
    /// Whether the retired queue is locked.
    pub locked: bool,
}

impl View for SafeTreiberStack {
    type V = SafeView;

    closed spec fn view(&self) -> SafeView {
        SafeView {
            list: self.list@,
            hazards: self.hazards@,
            retired: self.retired@,
            locked: self.locked,
        }
    }
}

/// The retired nodes exist, each is retired once, and the head leads to none of them.
pub open spec fn safe_wf(s: SafeView) -> bool {
    &&& list_wf(s.list)
    &&& s.hazards.len() == MAX_HAZARDS
    &&& s.retired.no_duplicates()
    &&& forall|i: int| 0 <= i < s.retired.len() ==> is_detached(s.list, #[trigger] s.retired[i])
}

/// An operation in progress.
pub enum StackOp {
    /// A push that has its node.
    Created { node: usize, value: u32 },
    /// A push whose node links to the head that it has seen.
    Linked { node: usize, value: u32, seen: usize },
    /// A pop that starts, or starts over.
    Begun { slot: HazardSlot },
    /// A pop that has found the stack empty.
    Empty { slot: HazardSlot },
    /// A pop that has seen this head.
    Loaded { slot: HazardSlot, head: usize },
    /// A pop that publishes the head that it has seen.
    Protected { slot: HazardSlot, head: usize },
    /// A pop that has seen the same head again after it published it.
    Verified { slot: HazardSlot, head: usize },
    /// A pop that has read what the head links to.
    Read { slot: HazardSlot, head: usize, next: usize },
    /// A pop that has taken this node off, and this value with it.
    Won { slot: HazardSlot, head: usize, taken: Ghost<u32> },
    /// A pop that has read the value of the node.
    Valued { slot: HazardSlot, head: usize, value: u32 },
    /// A pop that publishes nothing any more.
    Cleared { slot: HazardSlot, head: usize, value: u32 },
    /// A pop that has given its slot back and waits for the lock to retire the node.
    Retiring { head: usize, value: u32 },
    /// A reclamation that waits for the lock.
    Locking,
    /// A reclamation that has read the slots below `at`, and seen these pointers there.
    Scanning { found: Vec<usize>, at: usize, result: Option<u32> },
    /// A reclamation that has dealt with the retired nodes below `at`.
    Sweeping { found: Vec<usize>, at: usize, result: Option<u32> },
    /// An operation that is over; a pop returns the value.
    Finished { result: Option<u32> },
}

/// What a [`StackOp`] holds.
pub enum OpView {
    Created { node: usize, value: u32 },
    Linked { node: usize, value: u32, seen: usize },
    Begun { slot: nat },
    Empty { slot: nat },
    Loaded { slot: nat, head: usize },
    Protected { slot: nat, head: usize },
    Verified { slot: nat, head: usize },
    Read { slot: nat, head: usize, next: usize },
    Won { slot: nat, head: usize, value: u32 },
    Valued { slot: nat, head: usize, value: u32 },
    Cleared { slot: nat, head: usize, value: u32 },
    Retiring { head: usize, value: u32 },
    Locking,
    Scanning { found: Seq<usize>, at: nat, result: Option<u32> },
    Sweeping { found: Seq<usize>, at: nat, result: Option<u32> },
    Finished { result: Option<u32> },
}

impl View for StackOp {
    type V = OpView;

    open spec fn view(&self) -> OpView {
        match *self {
            StackOp::Created { node, value } => OpView::Created { node, value },
            StackOp::Linked { node, value, seen } => OpView::Linked { node, value, seen },
            StackOp::Begun { slot } => OpView::Begun { slot: slot@ },
            StackOp::Empty { slot } => OpView::Empty { slot: slot@ },
            StackOp::Loaded { slot, head } => OpView::Loaded { slot: slot@, head },
            StackOp::Protected { slot, head } => OpView::Protected { slot: slot@, head },
            StackOp::Verified { slot, head } => OpView::Verified { slot: slot@, head },
            StackOp::Read { slot, head, next } => OpView::Read { slot: slot@, head, next },
            StackOp::Won { slot, head, taken } => OpView::Won {
                slot: slot@,
                head,
                value: taken@,
            },
            StackOp::Valued { slot, head, value } => OpView::Valued { slot: slot@, head, value },
            StackOp::Cleared { slot, head, value } => OpView::Cleared {
                slot: slot@,
                head,
                value,
            },
            StackOp::Retiring { head, value } => OpView::Retiring { head, value },
            StackOp::Locking => OpView::Locking,
            StackOp::Scanning { found, at, result } => OpView::Scanning {
                found: found@,
                at: at as nat,
                result,
            },
            StackOp::Sweeping { found, at, result } => OpView::Sweeping {
                found: found@,
                at: at as nat,
                result,
            },
            StackOp::Finished { result } => OpView::Finished { result },
        }
    }
}

/// Whether slot `i` is acquired.
pub open spec fn slot_is_held(s: SafeView, i: nat) -> bool {
    i < s.hazards.len() && !(s.hazards[i as int] is Unused)
}

/// Whether slot `i` is acquired and publishes `ptr`.
pub open spec fn slot_publishes(s: SafeView, i: nat, ptr: usize) -> bool {
    i < s.hazards.len() && s.hazards[i as int] == SlotState::Publishing(ptr)
}

/// Whether `addr` is a node that is neither on the stack nor retired: it belongs to whoever
/// holds it.
pub open spec fn is_private(s: SafeView, addr: usize) -> bool {
    is_detached(s.list, addr) && !s.retired.contains(addr)
}

/// What holds of an operation in progress: the slot and the nodes that it holds are as it left
/// them.
pub open spec fn op_is_sound(s: SafeView, op: OpView) -> bool {
    match op {
        OpView::Created { node, value } => is_private(s, node) && s.list.nodes[node].value == value,
        OpView::Linked { node, value, seen } => is_private(s, node) && s.list.nodes[node] == (Node {
            value,
            next: seen,
        }),
        OpView::Begun { slot } => slot_is_held(s, slot),
        OpView::Empty { slot } => slot_is_held(s, slot),
        OpView::Loaded { slot, head } => slot_is_held(s, slot) && head != 0,
        OpView::Protected { slot, head } => slot_publishes(s, slot, head) && head != 0,
        OpView::Verified { slot, head } => slot_publishes(s, slot, head)
            && s.list.nodes.dom().contains(head),
        OpView::Read { slot, head, next } => slot_publishes(s, slot, head)
            && s.list.nodes.dom().contains(head) && s.list.nodes[head].next == next,
        OpView::Won { slot, head, value } => slot_publishes(s, slot, head) && is_private(s, head)
            && s.list.nodes[head].value == value,
        OpView::Valued { slot, head, value } => slot_publishes(s, slot, head) && is_private(s, head)
            && s.list.nodes[head].value == value,
        OpView::Cleared { slot, head, value } => slot_is_held(s, slot) && is_private(s, head)
            && s.list.nodes[head].value == value,
        OpView::Retiring { head, value } => is_private(s, head) && s.list.nodes[head].value
            == value,
        OpView::Locking => true,
        OpView::Scanning { found, at, result } => s.locked && at <= MAX_HAZARDS,
        OpView::Sweeping { found, at, result } => s.locked && at <= s.retired.len(),
        OpView::Finished { result } => true,
    }
}

/// The stack with slot `i` changed.
pub open spec fn with_hazard(s: SafeView, i: nat, slot: SlotState) -> SafeView {
    SafeView { hazards: s.hazards.update(i as int, slot), ..s }
}

/// The stack with the retired node at index `i` freed.
pub open spec fn freed_at(s: SafeView, i: int) -> SafeView {
    SafeView {
        list: without_node(s.list, s.retired[i]),
        retired: s.retired.remove(i),
        ..s
    }
}

/// Freeing a retired node leaves the others retired.
#[verifier::rlimit(30)]
pub proof fn freeing_keeps_wf(s: SafeView, i: int)
    requires
        safe_wf(s),
        0 <= i < s.retired.len(),
    ensures
        safe_wf(freed_at(s, i)),
        values(freed_at(s, i).list) == values(s.list),
{
    let addr = s.retired[i];
    let less = freed_at(s, i);
    assert(is_detached(s.list, addr));
    detached_nodes_do_not_matter(s.list, addr, s.list.nodes[addr]);
    assert forall|a: int| 0 <= a < less.retired.len() implies less.retired[a] == s.retired[if a
        < i {
        a
    } else {
        a + 1
    }] by {}
    assert forall|a: int| 0 <= a < less.retired.len() implies is_detached(
        less.list,
        #[trigger] less.retired[a],
    ) by {
        let k = if a < i {
            a
        } else {
            a + 1
        };
        assert(s.retired[k] != s.retired[i]);
        assert(is_detached(s.list, s.retired[k]));
    }
    assert forall|a: int, b: int|
        0 <= a < less.retired.len() && 0 <= b < less.retired.len() && a != b implies less.retired[a]
        != less.retired[b] by {
        let j = if a < i {
            a
        } else {
            a + 1
        };
        let k = if b < i {
            b
        } else {
            b + 1
        };
        assert(s.retired[j] != s.retired[k]);
    }
}

/// What the next access of an operation does.
pub open spec fn op_stepped(s: SafeView, op: OpView) -> (SafeView, OpView) {
    match op {
        OpView::Created { node, value } => (
            SafeView { list: with_node(s.list, node, Node { value, next: s.list.head }), ..s },
            OpView::Linked { node, value, seen: s.list.head },
        ),
        OpView::Linked { node, value, seen } => if s.list.head == seen {
            (
                SafeView { list: pushed_node(s.list, node), ..s },
                OpView::Finished { result: None },
            )
        } else {
            (s, OpView::Created { node, value })
        },
        OpView::Begun { slot } => if s.list.head == 0 {
            (s, OpView::Empty { slot })
        } else {
            (s, OpView::Loaded { slot, head: s.list.head })
        },
        OpView::Empty { slot } => (
            with_hazard(s, slot, SlotState::Unused),
            OpView::Finished { result: None },
        ),
        OpView::Loaded { slot, head } => (
            with_hazard(s, slot, SlotState::Publishing(head)),
            OpView::Protected { slot, head },
        ),
        OpView::Protected { slot, head } => if s.list.head == head {
            (s, OpView::Verified { slot, head })
        } else {
            (s, OpView::Begun { slot })
        },
        OpView::Verified { slot, head } => (
            s,
            OpView::Read { slot, head, next: s.list.nodes[head].next },
        ),
        OpView::Read { slot, head, next } => if s.list.head == head {
            (
                SafeView {
                    list: ListView { head: next, chain: s.list.chain.drop_last(), ..s.list },
                    ..s
                },
                OpView::Won { slot, head, value: s.list.nodes[head].value },
            )
        } else {
            (s, OpView::Begun { slot })
        },
        OpView::Won { slot, head, value } => (
            s,
            OpView::Valued { slot, head, value: s.list.nodes[head].value },
        ),
        OpView::Valued { slot, head, value } => (
            with_hazard(s, slot, SlotState::Idle),
            OpView::Cleared { slot, head, value },
        ),
        OpView::Cleared { slot, head, value } => (
            with_hazard(s, slot, SlotState::Unused),
            OpView::Retiring { head, value },
        ),
        OpView::Retiring { head, value } => if s.locked {
            (s, op)
        } else if s.retired.len() + 1 > RETIRE_THRESHOLD {
            (
                SafeView { retired: s.retired.push(head), locked: true, ..s },
                OpView::Scanning { found: Seq::empty(), at: 0, result: Some(value) },
            )
        } else {
            (
                SafeView { retired: s.retired.push(head), ..s },
                OpView::Finished { result: Some(value) },
            )
        },
        OpView::Locking => if s.locked {
            (s, op)
        } else {
            (
                SafeView { locked: true, ..s },
                OpView::Scanning { found: Seq::empty(), at: 0, result: None },
            )
        },
        OpView::Scanning { found, at, result } => if at < MAX_HAZARDS {
            (
                s,
                OpView::Scanning {
                    found: if is_published(s.hazards[at as int]) {
                        found.push(s.hazards[at as int]->Publishing_0)
                    } else {
                        found
                    },
                    at: at + 1,
                    result,
                },
            )
        } else {
            (s, OpView::Sweeping { found, at: 0, result })
        },
        OpView::Sweeping { found, at, result } => if at < s.retired.len() {
            if found.contains(s.retired[at as int]) {
                (s, OpView::Sweeping { found, at: at + 1, result })
            } else {
                (freed_at(s, at as int), op)
            }
        } else {
            (SafeView { locked: false, ..s }, OpView::Finished { result })
        },
        OpView::Finished { result } => (s, op),
    }
}

/// The stack after a reclamation: of the retired nodes only those stay that a slot publishes,
/// the others are freed.
pub open spec fn reclaimed(s: SafeView) -> SafeView {
    let seen = published(s.hazards);
    SafeView {
        list: ListView {
            nodes: s.list.nodes.remove_keys(
                Set::new(|addr: usize| s.retired.contains(addr) && !seen.contains(addr)),
            ),
            ..s.list
        },
        retired: s.retired.filter(|addr: usize| seen.contains(addr)),
        ..s
    }
}

/// The stack after its top node was taken off and retired.
pub open spec fn top_retired(s: SafeView) -> SafeView {
    SafeView { list: popped_node(s.list), retired: s.retired.push(s.list.head), ..s }
}

/// What a pop leaves behind: nothing changes if the stack is empty; else the top node is
/// retired, and if the queue has grown past [`RETIRE_THRESHOLD`] it is reclaimed.
pub open spec fn after_pop(s: SafeView) -> SafeView {
    if s.list.head == 0 {
        s
    } else if s.retired.len() + 1 > RETIRE_THRESHOLD {
        reclaimed(top_retired(s))
    } else {
        top_retired(s)
    }
}

/// The stack after every retired node from index `at` on was kept or freed.
spec fn sweep_all(s: SafeView, seen: Seq<usize>, at: nat) -> SafeView
    decreases s.retired.len() - at,
{
    if at >= s.retired.len() {
        s
    } else if seen.contains(s.retired[at as int]) {
        sweep_all(s, seen, at + 1)
    } else {
        sweep_all(freed_at(s, at as int), seen, at)
    }
}

#[verifier::rlimit(30)]
proof fn sweeping_filters(s: SafeView, seen: Seq<usize>, at: nat)
    requires
        at <= s.retired.len(),
        safe_wf(s),
    ensures
        ({
            let end = sweep_all(s, seen, at);
            let tail = s.retired.skip(at as int);
            &&& end.retired == s.retired.take(at as int) + tail.filter(
                |addr: usize| seen.contains(addr),
            )
            &&& end.list.nodes == s.list.nodes.remove_keys(
                Set::new(|addr: usize| tail.contains(addr) && !seen.contains(addr)),
            )
            &&& end.list.head == s.list.head
            &&& end.list.chain == s.list.chain
            &&& end.hazards == s.hazards
            &&& end.locked == s.locked
        }),
    decreases s.retired.len() - at,
{
    reveal(Seq::filter);
    let keep = |addr: usize| seen.contains(addr);
    let end = sweep_all(s, seen, at);
    let tail = s.retired.skip(at as int);
    if at >= s.retired.len() {
        assert(end.retired =~= s.retired.take(at as int) + tail.filter(keep));
        assert(end.list.nodes =~= s.list.nodes.remove_keys(
            Set::new(|addr: usize| tail.contains(addr) && !seen.contains(addr)),
        ));
    } else {
        let x = s.retired[at as int];
        let rest = s.retired.skip(at as int + 1);
        assert(tail =~= seq![x] + rest);
        Seq::filter_distributes_over_add(seq![x], rest, keep);
        assert(seq![x].drop_last() =~= Seq::empty());
        assert(Seq::<usize>::empty().filter(keep) =~= Seq::empty());
        assert(seq![x].filter(keep) =~= (if keep(x) {
            seq![x]
        } else {
            Seq::empty()
        }));
        assert forall|addr: usize| tail.contains(addr) <==> rest.contains(addr) || addr == x by {
            if rest.contains(addr) {
                assert(tail[rest.index_of(addr) + 1] == addr);
            }
            if tail.contains(addr) && addr != x {
                assert(rest[tail.index_of(addr) - 1] == addr);
            }
            assert(tail[0] == x);
        }
        if keep(x) {
            sweeping_filters(s, seen, at + 1);
            assert(s.retired.take(at as int + 1) =~= s.retired.take(at as int).push(x));
        } else {
            let less = freed_at(s, at as int);
            freeing_keeps_wf(s, at as int);
            sweeping_filters(less, seen, at);
            assert(less.retired.take(at as int) =~= s.retired.take(at as int));
            assert(less.retired.skip(at as int) =~= rest);
        }
        assert(end.retired =~= s.retired.take(at as int) + tail.filter(keep));
        assert(end.list.nodes =~= s.list.nodes.remove_keys(
            Set::new(|addr: usize| tail.contains(addr) && !seen.contains(addr)),
        ));
    }
}

/// A sweep of the whole queue, with all slots read, is a reclamation.
proof fn sweeping_reclaims(s: SafeView)
    requires
        safe_wf(s),
    ensures
        sweep_all(s, published(s.hazards), 0) == reclaimed(s),
{
    let seen = published(s.hazards);
    sweeping_filters(s, seen, 0);
    assert(s.retired.skip(0) =~= s.retired);
    let end = sweep_all(s, seen, 0);
    assert(end.retired =~= reclaimed(s).retired);
}

/// A reclamation that nobody disturbs, of a stack that was `start` when it took the lock.
spec fn reclaims_alone(start: SafeView, s: SafeView, op: OpView) -> bool {
    let held = SafeView { locked: true, ..start };
    match op {
        OpView::Scanning { found, at, result } => {
            &&& s == held
            &&& at <= MAX_HAZARDS
            &&& found == published(start.hazards.take(at as int))
        },
        OpView::Sweeping { found, at, result } => {
            &&& found == published(start.hazards)
            &&& safe_wf(s)
            &&& at <= s.retired.len()
            &&& sweep_all(s, found, at) == reclaimed(held)
        },
        OpView::Finished { result } => s == reclaimed(start),
        _ => false,
    }
}

/// How far such a reclamation is from its end.
spec fn reclaim_distance(s: SafeView, op: OpView) -> (nat, nat) {
    match op {
        OpView::Scanning { found, at, result } => (2, (MAX_HAZARDS + 1 - at) as nat),
        OpView::Sweeping { found, at, result } => (1, (s.retired.len() + 1 - at) as nat),
        _ => (0, 0),
    }
}

/// Such a reclamation reads one more slot, or has read them all.
#[verifier::rlimit(30)]
proof fn scanning_alone_goes_on(start: SafeView, s: SafeView, op: OpView)
    requires
        safe_wf(start),
        reclaims_alone(start, s, op),
        op is Scanning,
    ensures
        reclaims_alone(start, op_stepped(s, op).0, op_stepped(s, op).1),
        op_stepped(s, op).1 is Scanning && op_stepped(s, op).1->Scanning_at
            == op->Scanning_at + 1 && op->Scanning_at < MAX_HAZARDS || op_stepped(s, op).1
            is Sweeping,
{
    let held = SafeView { locked: true, ..start };
    let at = op->Scanning_at;
    if at < MAX_HAZARDS {
        published_slot_by_slot(start.hazards, at as int);
    } else {
        published_slot_by_slot(start.hazards, 0);
        sweeping_reclaims(held);
    }
}

/// Such a reclamation keeps or frees one more node, or is over.
proof fn sweeping_alone_goes_on(start: SafeView, s: SafeView, op: OpView)
    requires
        !start.locked,
        reclaims_alone(start, s, op),
        op is Sweeping,
    ensures
        reclaims_alone(start, op_stepped(s, op).0, op_stepped(s, op).1),
        op_stepped(s, op).1 is Sweeping && op_stepped(s, op).0.retired.len()
            - op_stepped(s, op).1->Sweeping_at < s.retired.len() - op->Sweeping_at
            || op_stepped(s, op).1 is Finished,
{
    let found = op->Sweeping_found;
    let at = op->Sweeping_at;
    let held = SafeView { locked: true, ..start };
    if at < s.retired.len() {
        if !found.contains(s.retired[at as int]) {
            freeing_keeps_wf(s, at as int);
        }
    } else {
        assert(sweep_all(s, found, at) == s);
        assert(s == reclaimed(held));
        assert((SafeView { locked: false, ..s }) == reclaimed(start));
    }
}

proof fn reclaims_alone_goes_on(start: SafeView, s: SafeView, op: OpView)
    requires
        safe_wf(start),
        !start.locked,
        reclaims_alone(start, s, op),
        !(op is Finished),
    ensures
        reclaims_alone(start, op_stepped(s, op).0, op_stepped(s, op).1),
        ({
            let d = reclaim_distance(s, op);
            let e = reclaim_distance(op_stepped(s, op).0, op_stepped(s, op).1);
            e.0 < d.0 || e.0 == d.0 && e.1 < d.1
        }),
{
    if op is Scanning {
        scanning_alone_goes_on(start, s, op);
    } else {
        sweeping_alone_goes_on(start, s, op);
    }
}

/// A pop that nobody disturbs, of a stack that was `start` when it began.
spec fn pops_alone(start: SafeView, s: SafeView, op: OpView) -> bool {
    let i = first_unused(start.hazards, 0);
    let h = start.list.head;
    let value = start.list.nodes[h].value;
    let taken = SafeView { list: popped_node(start.list), ..start };
    match op {
        OpView::Begun { slot } => slot == i && s == with_hazard(start, i, SlotState::Idle),
        OpView::Empty { slot } => slot == i && s == with_hazard(start, i, SlotState::Idle) && h == 0,
        OpView::Loaded { slot, head } => slot == i && head == h && h != 0 && s == with_hazard(
            start,
            i,
            SlotState::Idle,
        ),
        OpView::Protected { slot, head } => slot == i && head == h && h != 0 && s == with_hazard(
            start,
            i,
            SlotState::Publishing(h),
        ),
        OpView::Verified { slot, head } => slot == i && head == h && h != 0 && s == with_hazard(
            start,
            i,
            SlotState::Publishing(h),
        ),
        OpView::Read { slot, head, next } => slot == i && head == h && h != 0 && next
            == start.list.nodes[h].next && s == with_hazard(start, i, SlotState::Publishing(h)),
        OpView::Won { slot, head, value: v } => slot == i && head == h && h != 0 && v == value && s
            == with_hazard(taken, i, SlotState::Publishing(h)),
        OpView::Valued { slot, head, value: v } => slot == i && head == h && h != 0 && v == value
            && s == with_hazard(taken, i, SlotState::Publishing(h)),
        OpView::Cleared { slot, head, value: v } => slot == i && head == h && h != 0 && v == value
            && s == with_hazard(taken, i, SlotState::Idle),
        OpView::Retiring { head, value: v } => head == h && h != 0 && v == value && s == taken,
        OpView::Scanning { found, at, result } => h != 0 && result == Some(value)
            && start.retired.len() + 1 > RETIRE_THRESHOLD && reclaims_alone(
            top_retired(start),
            s,
            op,
        ),
        OpView::Sweeping { found, at, result } => h != 0 && result == Some(value)
            && start.retired.len() + 1 > RETIRE_THRESHOLD && reclaims_alone(
            top_retired(start),
            s,
            op,
        ),
        OpView::Finished { result } => s == after_pop(start) && result == (if h == 0 {
            None
        } else {
            Some(value)
        }),
        _ => false,
    }
}

/// How far such a pop is from its end.
spec fn pop_distance(s: SafeView, op: OpView) -> (nat, nat) {
    match op {
        OpView::Begun { .. } => (12, 0),
        OpView::Empty { .. } => (11, 0),
        OpView::Loaded { .. } => (10, 0),
        OpView::Protected { .. } => (9, 0),
        OpView::Verified { .. } => (8, 0),
        OpView::Read { .. } => (7, 0),
        OpView::Won { .. } => (6, 0),
        OpView::Valued { .. } => (5, 0),
        OpView::Cleared { .. } => (4, 0),
        OpView::Retiring { .. } => (3, 0),
        _ => reclaim_distance(s, op),
    }
}

#[verifier::rlimit(30)]
proof fn pops_alone_goes_on(start: SafeView, s: SafeView, op: OpView)
    requires
        safe_wf(start),
        !start.locked,
        first_unused(start.hazards, 0) < MAX_HAZARDS,
        pops_alone(start, s, op),
        !(op is Finished),
    ensures
        pops_alone(start, op_stepped(s, op).0, op_stepped(s, op).1),
        ({
            let d = pop_distance(s, op);
            let e = pop_distance(op_stepped(s, op).0, op_stepped(s, op).1);
            e.0 < d.0 || e.0 == d.0 && e.1 < d.1
        }),
{
    let i = first_unused(start.hazards, 0);
    let h = start.list.head;
    let taken = SafeView { list: popped_node(start.list), ..start };
    first_unused_is_first(start.hazards, 0, 0);
    assert(start.hazards.update(i as int, SlotState::Idle).update(i as int, SlotState::Unused) =~= start.hazards);
    assert(start.hazards.update(i as int, SlotState::Idle).update(i as int, SlotState::Publishing(h))
        =~= start.hazards.update(i as int, SlotState::Publishing(h)));
    assert(start.hazards.update(i as int, SlotState::Publishing(h)).update(i as int, SlotState::Idle)
        =~= start.hazards.update(i as int, SlotState::Idle));
    match op {
        OpView::Retiring { head, value } => {
            published_slot_by_slot(start.hazards, 0);
            taking_top_keeps_wf(start);
        },
        OpView::Scanning { found, at, result } => {
            taking_top_keeps_wf(start);
            reclaims_alone_goes_on(top_retired(start), s, op);
        },
        OpView::Sweeping { found, at, result } => {
            taking_top_keeps_wf(start);
            reclaims_alone_goes_on(top_retired(start), s, op);
        },
        _ => {},
    }
}

/// The top node can be retired.
proof fn taking_top_keeps_wf(s: SafeView)
    requires
        safe_wf(s),
        s.list.head != 0,
    ensures
        safe_wf(top_retired(s)),
        values(top_retired(s).list) == values(s.list).drop_last(),
        values(s.list).len() > 0,
        values(s.list).last() == s.list.nodes[s.list.head].value,
{
    popping_takes_value(s.list);
    let t = top_retired(s);
    let h = s.list.head;
    assert(s.list.chain[s.list.chain.len() - 1] == h);
    assert forall|i: int| 0 <= i < t.retired.len() implies is_detached(
        t.list,
        #[trigger] t.retired[i],
    ) by {
        if i < s.retired.len() {
            assert(is_detached(s.list, s.retired[i]));
        }
    }
    assert forall|a: int, b: int|
        0 <= a < t.retired.len() && 0 <= b < t.retired.len() && a != b implies t.retired[a]
        != t.retired[b] by {
        if a < s.retired.len() {
            assert(is_detached(s.list, s.retired[a]));
        }
        if b < s.retired.len() {
            assert(is_detached(s.list, s.retired[b]));
        }
    }
}

/// A reclamation changes no value of the stack.
pub proof fn reclaiming_keeps_values(s: SafeView)
    requires
        safe_wf(s),
    ensures
        safe_wf(reclaimed(s)),
        values(reclaimed(s).list) == values(s.list),
{
    let seen = published(s.hazards);
    sweeping_reclaims(s);
    sweep_keeps_wf(s, seen, 0);
}

/// A reclamation frees exactly the retired nodes that no slot publishes; the others stay retired
/// and stay as they are.
pub proof fn reclaiming_frees_the_unhazarded(s: SafeView, addr: usize)
    requires
        safe_wf(s),
    ensures
        reclaimed(s).retired.contains(addr) <==> s.retired.contains(addr) && is_hazard(
            s.hazards,
            addr,
        ),
        reclaimed(s).list.nodes.dom().contains(addr) <==> s.list.nodes.dom().contains(addr) && !(
        s.retired.contains(addr) && !is_hazard(s.hazards, addr)),
        reclaimed(s).list.nodes.dom().contains(addr) ==> reclaimed(s).list.nodes[addr]
            == s.list.nodes[addr],
{
    let seen = published(s.hazards);
    let keep = |addr: usize| seen.contains(addr);
    snapshot_lists_hazards(s.hazards, addr);
    let kept = s.retired.filter(keep);
    assert(reclaimed(s).retired == kept);
    if s.retired.contains(addr) {
        let i = s.retired.index_of(addr);
        assert(is_detached(s.list, s.retired[i]));
        if keep(addr) {
            s.retired.lemma_filter_contains(keep, i);
        }
    }
    if kept.contains(addr) {
        s.retired.lemma_filter_contains_rev(keep, addr);
        s.retired.lemma_filter_pred(keep, kept.index_of(addr));
    }
}

/// With nothing published, a reclamation empties the queue.
pub proof fn reclaiming_without_hazards_empties_the_queue(s: SafeView)
    requires
        safe_wf(s),
        forall|i: int| 0 <= i < s.hazards.len() ==> !is_published(#[trigger] s.hazards[i]),
    ensures
        reclaimed(s).retired == Seq::<usize>::empty(),
{
    let kept = reclaimed(s).retired;
    if kept.len() > 0 {
        let addr = kept[0];
        assert(kept.contains(addr));
        reclaiming_frees_the_unhazarded(s, addr);
        assert(is_detached(s.list, s.retired[s.retired.index_of(addr)]));
        let i = s.hazards.index_of(SlotState::Publishing(addr));
        assert(is_published(s.hazards[i]));
    }
}

proof fn sweep_keeps_wf(s: SafeView, seen: Seq<usize>, at: nat)
    requires
        safe_wf(s),
    ensures
        safe_wf(sweep_all(s, seen, at)),
        values(sweep_all(s, seen, at).list) == values(s.list),
    decreases s.retired.len() - at,
{
    if at < s.retired.len() {
        if seen.contains(s.retired[at as int]) {
            sweep_keeps_wf(s, seen, at + 1);
        } else {
            freeing_keeps_wf(s, at as int);
            sweep_keeps_wf(freed_at(s, at as int), seen, at);
        }
    }
}

/// Freeing a retired node makes no node stray.
#[verifier::rlimit(30)]
pub proof fn freeing_strays_nothing(s: SafeView, i: int, addr: usize)
    requires
        safe_wf(s),
        0 <= i < s.retired.len(),
    ensures
        is_private(freed_at(s, i), addr) <==> is_private(s, addr),
{
    let less = freed_at(s, i);
    if s.retired.contains(addr) && addr != s.retired[i] {
        let k = s.retired.index_of(addr);
        assert(less.retired[if k < i {
            k
        } else {
            k - 1
        }] == addr);
    }
    if less.retired.contains(addr) {
        let k = less.retired.index_of(addr);
        assert(s.retired[if k < i {
            k
        } else {
            k + 1
        }] == addr);
    }
    assert(s.retired.contains(s.retired[i]));
}

/// A pop makes no node stray.
#[verifier::rlimit(30)]
proof fn popping_strays_nothing(s: SafeView, addr: usize)
    requires
        safe_wf(s),
        s.list.head != 0,
    ensures
        is_private(after_pop(s), addr) <==> is_private(s, addr),
{
    let t = top_retired(s);
    let h = s.list.head;
    taking_top_keeps_wf(s);
    assert(t.retired.last() == h);
    assert(s.list.chain.last() == h);
    assert(s.list.chain.contains(h));
    if s.retired.contains(addr) {
        assert(t.retired[s.retired.index_of(addr)] == addr);
    }
    if t.retired.contains(addr) && addr != h {
        assert(s.retired[t.retired.index_of(addr)] == addr);
    }
    if s.list.chain.contains(addr) && addr != h {
        assert(t.list.chain[s.list.chain.index_of(addr)] == addr);
    }
    if t.list.chain.contains(addr) {
        assert(s.list.chain[t.list.chain.index_of(addr)] == addr);
    }
    reclaiming_frees_the_unhazarded(t, addr);
}

/// Whether `ids` holds `id`.
fn holds(ids: &Vec<usize>, id: usize) -> (found: bool)
    ensures
        found == ids@.contains(id),
{
    let mut i: usize = 0;
    while i < ids.len()
        invariant
            i <= ids@.len(),
            forall|k: int| 0 <= k < i ==> ids@[k] != id,
        decreases ids@.len() - i,
    {
        if ids[i] == id {
            return true;
        }
        i = i + 1;
    }
    false
}

impl StackOp {
    /// Whether the operation is over.
    pub fn is_finished(&self) -> (finished: bool)
        ensures
            finished == (self@ is Finished),
    {
        match self {
            StackOp::Finished { result } => true,
            _ => false,
        }
    }

    /// What the operation returns; `None` if it is not over, or not a pop, or found the stack
    /// empty.
    pub fn result(&self) -> (value: Option<u32>)
        ensures
            value == (match self@ {
                OpView::Finished { result } => result,
                _ => None,
            }),
    {
        match self {
            StackOp::Finished { result } => *result,
            _ => None,
        }
    }
}

impl Default for SafeTreiberStack {
    fn default() -> (stack: Self)
        ensures
            stack.wf(),
            stack@ == (SafeView {
                list: ListView { head: 0, nodes: Map::empty(), chain: Seq::empty() },
                hazards: unused_slots(),
                retired: Seq::empty(),
                locked: false,
            }),
            values(stack@.list) == Seq::<u32>::empty(),
    {
        Self::new()
    }
}

impl SafeTreiberStack {
    /// The list of nodes is well formed, in what callers do not see of it too.
    pub closed spec fn nodes_wf(&self) -> bool {
        self.list.wf()
    }

    pub open spec fn wf(&self) -> bool {
        &&& self.nodes_wf()
        &&& safe_wf(self@)
    }

    /// An empty stack.
    pub fn new() -> (stack: Self)
        ensures
            stack.wf(),
            stack@ == (SafeView {
                list: ListView { head: 0, nodes: Map::empty(), chain: Seq::empty() },
                hazards: unused_slots(),
                retired: Seq::empty(),
                locked: false,
            }),
            values(stack@.list) == Seq::<u32>::empty(),
    {
        let stack = Self {
            list: NodeList::new(),
            hazards: HazardRegistry::new(),
            retired: Vec::new(),
            locked: false,
        };
        assert(values(stack@.list) =~= Seq::<u32>::empty());
        stack
    }

    /// Puts `value` on top.
    pub fn push(&mut self, value: u32)
        requires
            old(self).wf(),
        ensures
            final(self).wf(),
            values(final(self)@.list) == values(old(self)@.list).push(value),
            final(self)@.hazards == old(self)@.hazards,
            final(self)@.retired == old(self)@.retired,
            final(self)@.locked == old(self)@.locked,
            forall|addr: usize| #[trigger]
                is_private(final(self)@, addr) <==> is_private(old(self)@, addr),
    {
        let ghost start = self@;
        let mut op = self.begin_push(value);
        let ghost new = op@->Created_node;
        proof {
            detached_nodes_do_not_matter(start.list, op@->Created_node, Node { value, next: 0 });
        }
        while !op.is_finished()
            invariant
                self.wf(),
                op_is_sound(self@, op@),
                self@.hazards == start.hazards,
                self@.retired == start.retired,
                self@.locked == start.locked,
                !start.list.nodes.dom().contains(new),
                self@.list.nodes.dom() == start.list.nodes.dom().insert(new),
                match op@ {
                    OpView::Created { node, value: v } => node == new && v == value
                        && self@.list.chain == start.list.chain && values(self@.list) == values(
                        start.list,
                    ),
                    OpView::Linked { node, value: v, seen } => node == new && v == value && seen
                        == self@.list.head && self@.list.chain == start.list.chain && values(
                        self@.list,
                    ) == values(start.list),
                    OpView::Finished { result } => self@.list.chain == start.list.chain.push(new)
                        && values(self@.list) == values(start.list).push(value),
                    _ => false,
                },
            decreases
                    match op@ {
                        OpView::Created { node, value } => 2nat,
                        OpView::Linked { node, value, seen } => 1nat,
                        _ => 0nat,
                    },
        {
            proof {
                match op@ {
                    OpView::Created { node, value: v } => {
                        let next = self@.list.head;
                        detached_nodes_do_not_matter(self@.list, node, Node { value, next });
                        assert(self@.list.nodes.insert(node, Node { value, next }).dom()
                            =~= start.list.nodes.dom().insert(new));
                    },
                    OpView::Linked { node, value: v, seen } => {
                        pushing_adds_value(self@.list, node);
                    },
                    _ => {},
                }
            }
            op = self.step(op);
        }
        proof {
            let end = self@;
            chain_with_another(start.list.chain, new);
            assert forall|addr: usize| #[trigger] is_private(end, addr) <==> is_private(
                start,
                addr,
            ) by {
                if end.list.chain.contains(addr) && addr != new {
                    assert(start.list.chain[end.list.chain.index_of(addr)] == addr);
                }
            }
        }
    }

    /// Takes the top value off, or returns `None` if the stack is empty. The node is retired.
    pub fn pop(&mut self) -> (value: Option<u32>)
        requires
            old(self).wf(),
            !old(self)@.locked,
            first_unused(old(self)@.hazards, 0) < MAX_HAZARDS,
        ensures
            final(self).wf(),
            final(self)@ == after_pop(old(self)@),
            match value {
                Some(value) => {
                    let before = values(old(self)@.list);
                    &&& before.len() > 0
                    &&& value == before.last()
                    &&& values(final(self)@.list) == before.drop_last()
                },
                None => values(old(self)@.list).len() == 0 && final(self)@ == old(self)@,
            },
    {
        let ghost start = self@;
        proof {
            null_head_means_empty(start.list);
        }
        let mut op = match self.begin_pop() {
            Some(op) => op,
            None => return None,
        };
        while !op.is_finished()
            invariant
                self.wf(),
                op_is_sound(self@, op@),
                safe_wf(start),
                !start.locked,
                first_unused(start.hazards, 0) < MAX_HAZARDS,
                pops_alone(start, self@, op@),
            decreases pop_distance(self@, op@).0, pop_distance(self@, op@).1,
        {
            proof {
                pops_alone_goes_on(start, self@, op@);
            }
            op = self.step(op);
        }
        proof {
            if start.list.head != 0 {
                taking_top_keeps_wf(start);
                reclaiming_keeps_values(top_retired(start));
            }
        }
        op.result()
    }

    /// Whether there is nothing on the stack.
    pub fn is_empty(&self) -> (empty: bool)
        requires
            self.wf(),
        ensures
            empty == (values(self@.list).len() == 0),
    {
        proof {
            null_head_means_empty(self@.list);
        }
        self.list.head() == 0
    }

    /// How many popped nodes wait to be freed.
    pub fn n_retired(&self) -> (n: usize)
        ensures
            n == self@.retired.len(),
    {
        self.retired.len()
    }

    /// Force a reclamation pass. Useful in tests to make leak checks
    /// deterministic without waiting for the threshold.
    pub fn force_reclaim(&mut self)
        requires
            old(self).wf(),
            !old(self)@.locked,
        ensures
            final(self).wf(),
            final(self)@ == reclaimed(old(self)@),
            values(final(self)@.list) == values(old(self)@.list),
    {
        let ghost start = self@;
        let mut op = self.step(StackOp::Locking);
        proof {
            published_slot_by_slot(start.hazards, 0);
        }
        while !op.is_finished()
            invariant
                self.wf(),
                op_is_sound(self@, op@),
                safe_wf(start),
                !start.locked,
                reclaims_alone(start, self@, op@),
            decreases reclaim_distance(self@, op@).0, reclaim_distance(self@, op@).1,
        {
            proof {
                reclaims_alone_goes_on(start, self@, op@);
            }
            op = self.step(op);
        }
        proof {
            reclaiming_keeps_values(start);
        }
    }

    /// Empties the stack and frees the nodes, those on it and those retired. For when no
    /// operation is in progress: nobody can be reading any more, so all are freed outright.
    pub fn drain(&mut self)
        requires
            old(self).wf(),
            !old(self)@.locked,
            first_unused(old(self)@.hazards, 0) < MAX_HAZARDS,
        ensures
            final(self).wf(),
            values(final(self)@.list) == Seq::<u32>::empty(),
            final(self)@.retired == Seq::<usize>::empty(),
            final(self)@.hazards == old(self)@.hazards,
            !final(self)@.locked,
            forall|addr: usize| #[trigger]
                final(self)@.list.nodes.dom().contains(addr) <==> is_private(old(self)@, addr),
    {
        let ghost start = self@;
        loop
            invariant
                self.wf(),
                self@.hazards == start.hazards,
                first_unused(start.hazards, 0) < MAX_HAZARDS,
                !self@.locked,
                forall|addr: usize| #[trigger] is_private(self@, addr) <==> is_private(start, addr),
            ensures
                values(self@.list).len() == 0,
            decreases values(self@.list).len(),
        {
            let ghost before = self@;
            match self.pop() {
                Some(value) => {},
                None => {
                    break;
                },
            }
            proof {
                null_head_means_empty(before.list);
                assert forall|addr: usize| #[trigger] is_private(self@, addr) <==> is_private(
                    start,
                    addr,
                ) by {
                    popping_strays_nothing(before, addr);
                }
            }
        }
        proof {
            null_head_means_empty(self@.list);
        }
        assert(values(self@.list) =~= Seq::<u32>::empty());
        while self.retired.len() > 0
            invariant
                self.wf(),
                values(self@.list) == Seq::<u32>::empty(),
                self@.hazards == start.hazards,
                !self@.locked,
                forall|addr: usize| #[trigger] is_private(self@, addr) <==> is_private(start, addr),
            decreases self@.retired.len(),
        {
            let ghost before = self@;
            let ghost last = before.retired.len() - 1;
            proof {
                assert(is_detached(before.list, before.retired[last]));
                freeing_keeps_wf(before, last);
            }
            match self.retired.pop() {
                Some(addr) => self.list.free(addr),
                None => {},
            }
            proof {
                assert(self@.retired =~= before.retired.remove(last));
                assert(self@ == freed_at(before, last));
                assert forall|addr: usize| #[trigger] is_private(self@, addr) <==> is_private(
                    start,
                    addr,
                ) by {
                    freeing_strays_nothing(before, last, addr);
                }
            }
        }
        proof {
            let end = self@;
            assert(end.list.chain.len() == values(end.list).len());
            assert forall|addr: usize| #[trigger] end.list.nodes.dom().contains(
                addr,
            ) <==> is_private(start, addr) by {
                assert(is_private(end, addr) <==> is_private(start, addr));
            }
        }
    }

    /// Start to push `value`.
    pub fn begin_push(&mut self, value: u32) -> (op: StackOp)
        requires
            old(self).wf(),
        ensures
            final(self).wf(),
            op_is_sound(final(self)@, op@),
            op matches StackOp::Created { node, value: v } && v == value && node != 0
                && !old(self)@.list.nodes.dom().contains(node) && final(self)@ == (SafeView {
                list: with_node(old(self)@.list, node, Node { value, next: 0 }),
                ..old(self)@
            }),
    {
        let node: usize = self.list.create(value);
        proof {
            detached_nodes_do_not_matter(old(self)@.list, node, Node { value, next: 0 });
            assert forall|i: int| 0 <= i < self@.retired.len() implies is_detached(
                self@.list,
                #[trigger] self@.retired[i],
            ) by {
                assert(is_detached(old(self)@.list, old(self)@.retired[i]));
            }
        }
        StackOp::Created { node, value }
    }

    /// Start to pop: acquire a hazard slot. `None` if all slots are in use.
    pub fn begin_pop(&mut self) -> (op: Option<StackOp>)
        requires
            old(self).wf(),
        ensures
            final(self).wf(),
            match op {
                Some(op) => {
                    let slot = first_unused(old(self)@.hazards, 0);
                    &&& slot < MAX_HAZARDS
                    &&& op@ == OpView::Begun { slot }
                    &&& final(self)@ == with_hazard(old(self)@, slot, SlotState::Idle)
                    &&& op_is_sound(final(self)@, op@)
                },
                None => first_unused(old(self)@.hazards, 0) == MAX_HAZARDS && final(self)@ == old(
                    self,
                )@,
            },
    {
        match self.hazards.acquire() {
            Some(slot) => Some(StackOp::Begun { slot }),
            None => None,
        }
    }

    /// Take the next access of an operation.
    pub fn step(&mut self, op: StackOp) -> (next: StackOp)
        requires
            old(self).wf(),
            op_is_sound(old(self)@, op@),
        ensures
            final(self).wf(),
            (final(self)@, next@) == op_stepped(old(self)@, op@),
            op_is_sound(final(self)@, next@),
    {
        match op {
            StackOp::Created { node, value } => {
                let seen: usize = self.list.head();
                self.list.link(node, seen);
                StackOp::Linked { node, value, seen }
            },
            StackOp::Linked { node, value, seen } => {
                if self.list.swap_in(seen, node) {
                    StackOp::Finished { result: None }
                } else {
                    StackOp::Created { node, value }
                }
            },
            StackOp::Begun { slot } => {
                let head: usize = self.list.head();
                if head == 0 {
                    StackOp::Empty { slot }
                } else {
                    StackOp::Loaded { slot, head }
                }
            },
            StackOp::Empty { slot } => {
                slot.release(&mut self.hazards);
                StackOp::Finished { result: None }
            },
            StackOp::Loaded { slot, head } => {
                slot.protect(&mut self.hazards, head);
                StackOp::Protected { slot, head }
            },
            StackOp::Protected { slot, head } => {
                // The verify step: ensure head is still the head AFTER the
                // hazard is published. If not, retry. This prevents a popper
                // from being interrupted between load and protect, with the
                // node freed in the gap.
                if self.list.head() == head {
                    StackOp::Verified { slot, head }
                } else {
                    StackOp::Begun { slot }
                }
            },
            StackOp::Verified { slot, head } => {
                let next: usize = self.list.read(head).next;
                StackOp::Read { slot, head, next }
            },
            StackOp::Read { slot, head, next } => {
                let ghost value = self@.list.nodes[head].value;
                if self.list.swap_out(head, next) {
                    StackOp::Won { slot, head, taken: Ghost(value) }
                } else {
                    // Someone else won. Loop, re-protect.
                    StackOp::Begun { slot }
                }
            },
            StackOp::Won { slot, head, taken } => {
                let value: u32 = self.list.read(head).value;
                StackOp::Valued { slot, head, value }
            },
            StackOp::Valued { slot, head, value } => {
                slot.clear(&mut self.hazards);
                StackOp::Cleared { slot, head, value }
            },
            StackOp::Cleared { slot, head, value } => {
                slot.release(&mut self.hazards);
                StackOp::Retiring { head, value }
            },
            StackOp::Retiring { head, value } => self.retire(head, value),
            StackOp::Locking => {
                if self.locked {
                    StackOp::Locking
                } else {
                    self.locked = true;
                    StackOp::Scanning { found: Vec::new(), at: 0, result: None }
                }
            },
            StackOp::Scanning { found, at, result } => self.scan_slot(found, at, result),
            StackOp::Sweeping { found, at, result } => self.reclaim_locked(found, at, result),
            StackOp::Finished { result } => StackOp::Finished { result },
        }
    }

    /// Puts a popped node into the retired queue, if nobody holds the lock on it. If the queue
    /// has grown past [`RETIRE_THRESHOLD`], the lock is kept for a reclamation.
    fn retire(&mut self, head: usize, value: u32) -> (next: StackOp)
        requires
            old(self).wf(),
            op_is_sound(old(self)@, OpView::Retiring { head, value }),
        ensures
            final(self).wf(),
            (final(self)@, next@) == op_stepped(old(self)@, OpView::Retiring { head, value }),
            op_is_sound(final(self)@, next@),
    {
        if self.locked {
            return StackOp::Retiring { head, value };
        }
        self.retired.push(head);
        if self.retired.len() > RETIRE_THRESHOLD {
            self.locked = true;
            let found: Vec<usize> = Vec::new();
            StackOp::Scanning { found, at: 0, result: Some(value) }
        } else {
            StackOp::Finished { result: Some(value) }
        }
    }

    /// Reads one more hazard slot, with the lock on the retired queue held.
    fn scan_slot(&self, found: Vec<usize>, at: usize, result: Option<u32>) -> (next: StackOp)
        requires
            self.wf(),
            op_is_sound(self@, OpView::Scanning { found: found@, at: at as nat, result }),
        ensures
            (self@, next@) == op_stepped(
                self@,
                OpView::Scanning { found: found@, at: at as nat, result },
            ),
            op_is_sound(self@, next@),
    {
        let mut found = found;
        if at < MAX_HAZARDS {
            if let Some(ptr) = self.hazards.published_at(at) {
                found.push(ptr);
            }
            StackOp::Scanning { found, at: at + 1, result }
        } else {
            StackOp::Sweeping { found, at: 0, result }
        }
    }

    /// Keeps or frees one more retired node, with the lock on the queue held: it is kept if
    /// somebody published it. Gives the lock back when there is none left.
    fn reclaim_locked(&mut self, found: Vec<usize>, at: usize, result: Option<u32>) -> (next: StackOp)
        requires
            old(self).wf(),
            op_is_sound(old(self)@, OpView::Sweeping { found: found@, at: at as nat, result }),
        ensures
            final(self).wf(),
            (final(self)@, next@) == op_stepped(
                old(self)@,
                OpView::Sweeping { found: found@, at: at as nat, result },
            ),
            op_is_sound(final(self)@, next@),
    {
        if at < self.retired.len() {
            let addr: usize = self.retired[at];
            if holds(&found, addr) {
                StackOp::Sweeping { found, at: at + 1, result }
            } else {
                self.list.free(addr);
                self.retired.remove(at);
                proof {
                    freeing_keeps_wf(old(self)@, at as int);
                    assert(self@ == freed_at(old(self)@, at as int));
                }
                StackOp::Sweeping { found, at, result }
            }
        } else {
            self.locked = false;
            StackOp::Finished { result }
        }
    }
}

/// What a pop leaves behind. An empty stack stays as it is. Else the top node is off the stack and
/// retired. With up to 64 nodes in the queue then, no node is freed; with more, the queue keeps
/// exactly those that some slot publishes, and the others are freed. The slots stay as they are.
#[verifier::rlimit(30)]
pub proof fn pop_retires_the_top(s: SafeView, addr: usize)
    requires
        safe_wf(s),
    ensures
        s.list.head == 0 ==> after_pop(s) == s,
        after_pop(s).hazards == s.hazards,
        after_pop(s).locked == s.locked,
        s.list.head != 0 ==> values(after_pop(s).list) == values(s.list).drop_last(),
        s.list.head != 0 && s.retired.len() + 1 <= 64 ==> after_pop(s).retired == s.retired.push(
            s.list.head,
        ) && after_pop(s).list.nodes == s.list.nodes,
        s.list.head != 0 && s.retired.len() + 1 > 64 ==> {
            let queued = s.retired.contains(addr) || addr == s.list.head;
            &&& after_pop(s).retired.contains(addr) <==> queued && is_hazard(s.hazards, addr)
            &&& after_pop(s).list.nodes.dom().contains(addr) <==> s.list.nodes.dom().contains(addr)
                && (queued ==> is_hazard(s.hazards, addr))
        },
{
    if s.list.head != 0 {
        let t = top_retired(s);
        taking_top_keeps_wf(s);
        reclaiming_keeps_values(t);
        reclaiming_frees_the_unhazarded(t, addr);
        chain_with_another(s.retired, s.list.head);
        if t.retired.contains(addr) && addr != s.list.head {
            assert(s.retired[t.retired.index_of(addr)] == addr);
        }
    }
}

/// A reclamation touches nothing but the retired queue and the nodes in it.
pub proof fn reclaiming_touches_retired_nodes_alone(s: SafeView)
    ensures
        reclaimed(s).hazards == s.hazards,
        reclaimed(s).locked == s.locked,
        reclaimed(s).list.head == s.list.head,
        reclaimed(s).list.chain == s.list.chain,
{
}

/// To change a slot changes nothing else.
pub proof fn slot_changes_touch_one_slot(s: SafeView, i: nat, slot: SlotState, other: int)
    requires
        i < s.hazards.len(),
        0 <= other < s.hazards.len(),
    ensures
        with_hazard(s, i, slot).hazards.len() == s.hazards.len(),
        with_hazard(s, i, slot).hazards[i as int] == slot,
        other != i ==> with_hazard(s, i, slot).hazards[other] == s.hazards[other],
        with_hazard(s, i, slot).list == s.list,
        with_hazard(s, i, slot).retired == s.retired,
        with_hazard(s, i, slot).locked == s.locked,
{
}

} // verus!
