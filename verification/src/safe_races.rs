//! What the [`SafeTreiberStack`](crate::SafeTreiberStack) guarantees when many threads use it
//! at once.
//!
//! Threads interleave between any two accesses to what they share. A [`SafeRace`] is the stack
//! together with every operation that some thread is in the middle of; a [`SafeMove`] starts an
//! operation or takes its next access, as
//! [`SafeTreiberStack::step`](crate::SafeTreiberStack::step) does. To acquire, write, read or
//! release a hazard slot is one access. No premise on the threads is
//! needed: whatever they do, no node is freed while a pop that has verified it still holds it,
//! an operation takes effect at the moment its compare-and-swap succeeds, on top of the stack,
//! and no value is lost or popped twice.

use crate::hazard::{first_unused, is_published, unused_slots, SlotState, MAX_HAZARDS};
use crate::nodes::{
    chain_with_another, chain_without_last, detached_nodes_do_not_matter, head_is_on_chain,
    is_detached, null_head_means_empty, popped_node, popping_takes_value, pushing_adds_value,
    values, with_node, Node,
};
use crate::safe_treiber::{
    freed_at, freeing_keeps_wf, freeing_strays_nothing, is_private, op_is_sound, op_stepped,
    safe_wf, slot_is_held, with_hazard, OpView, SafeView,
};
use crate::treiber_races::{pop_keeps_the_balance, push_moves_the_balance};
use vstd::multiset::Multiset;
use vstd::prelude::*;

verus! {

/// The stack, the operations of all threads, and the values that were pushed and popped so far.
pub struct SafeRace {
    pub stack: SafeView,
    pub ops: Map<nat, OpView>,
    pub pushed: Multiset<u32>,
    pub popped: Multiset<u32>,
}

/// What a thread does.
pub enum SafeMove {
    /// Start to push `value`, in a node at an address that no other node has.
    Push { thread: nat, value: u32, node: usize },
    /// Start to pop, with a hazard slot that nobody holds.
    Pop { thread: nat, slot: nat },
    /// Start a reclamation.
    Reclaim { thread: nat },
    /// Take the next access of the operation.
    Step { thread: nat },
    /// Return from an operation that is over.
    Return { thread: nat },
}

/// Whether a move can be made. A pop needs a hazard slot that nobody holds; it may get any of
/// them, as slots are taken and given back while it looks for one.
pub open spec fn can_move_safe(r: SafeRace, m: SafeMove) -> bool {
    match m {
        SafeMove::Push { thread, value, node } => {
            &&& !r.ops.dom().contains(thread)
            &&& node != 0
            &&& !r.stack.list.nodes.dom().contains(node)
        },
        SafeMove::Pop { thread, slot } => {
            &&& !r.ops.dom().contains(thread)
            &&& slot < r.stack.hazards.len()
            &&& r.stack.hazards[slot as int] is Unused
        },
        SafeMove::Reclaim { thread } => !r.ops.dom().contains(thread),
        SafeMove::Step { thread } => r.ops.dom().contains(thread),
        SafeMove::Return { thread } => r.ops.dom().contains(thread) && r.ops[thread] is Finished,
    }
}

/// The race after the next access of `thread`. A push counts when its compare-and-swap puts the
/// node on top, a pop when its compare-and-swap takes the node off.
pub open spec fn safe_stepped(r: SafeRace, thread: nat) -> SafeRace {
    let (stack, op) = op_stepped(r.stack, r.ops[thread]);
    SafeRace {
        stack,
        ops: r.ops.insert(thread, op),
        pushed: match r.ops[thread] {
            OpView::Linked { node, value, seen } if op is Finished => r.pushed.insert(value),
            _ => r.pushed,
        },
        popped: match op {
            OpView::Won { slot, head, value } if r.ops[thread] is Read => r.popped.insert(value),
            _ => r.popped,
        },
    }
}

/// The race after a move.
pub open spec fn moved_safe(r: SafeRace, m: SafeMove) -> SafeRace {
    match m {
        SafeMove::Push { thread, value, node } => SafeRace {
            stack: SafeView {
                list: with_node(r.stack.list, node, Node { value, next: 0 }),
                ..r.stack
            },
            ops: r.ops.insert(thread, OpView::Created { node, value }),
            ..r
        },
        SafeMove::Pop { thread, slot } => SafeRace {
            stack: with_hazard(r.stack, slot, SlotState::Idle),
            ops: r.ops.insert(thread, OpView::Begun { slot }),
            ..r
        },
        SafeMove::Reclaim { thread } => SafeRace {
            ops: r.ops.insert(thread, OpView::Locking),
            ..r
        },
        SafeMove::Step { thread } => safe_stepped(r, thread),
        SafeMove::Return { thread } => SafeRace { ops: r.ops.remove(thread), ..r },
    }
}

/// The hazard slot that an operation holds.
pub open spec fn held_slot(op: OpView) -> Option<nat> {
    match op {
        OpView::Begun { slot } => Some(slot),
        OpView::Empty { slot } => Some(slot),
        OpView::Loaded { slot, head } => Some(slot),
        OpView::Protected { slot, head } => Some(slot),
        OpView::Verified { slot, head } => Some(slot),
        OpView::Read { slot, head, next } => Some(slot),
        OpView::Won { slot, head, value } => Some(slot),
        OpView::Valued { slot, head, value } => Some(slot),
        OpView::Cleared { slot, head, value } => Some(slot),
        _ => None,
    }
}

/// The node that belongs to an operation alone: one that it has yet to push, or has popped.
pub open spec fn private_node(op: OpView) -> Option<usize> {
    match op {
        OpView::Created { node, value } => Some(node),
        OpView::Linked { node, value, seen } => Some(node),
        OpView::Won { slot, head, value } => Some(head),
        OpView::Valued { slot, head, value } => Some(head),
        OpView::Cleared { slot, head, value } => Some(head),
        OpView::Retiring { head, value } => Some(head),
        _ => None,
    }
}

/// The node that a pop has verified and goes on to read.
pub open spec fn verified_node(op: OpView) -> Option<usize> {
    match op {
        OpView::Verified { slot, head } => Some(head),
        OpView::Read { slot, head, next } => Some(head),
        _ => None,
    }
}

/// Whether the operation holds the lock on the retired queue.
pub open spec fn holds_lock(op: OpView) -> bool {
    op is Scanning || op is Sweeping
}

/// Whether the reclamation `b` will keep the node that the pop `a` has verified, should it be
/// retired: it has seen it published, or has yet to read the slot.
pub open spec fn spares(s: SafeView, b: OpView, a: OpView) -> bool {
    verified_node(a) matches Some(head) ==> s.retired.contains(head) ==> match b {
        OpView::Scanning { found, at, result } => at <= held_slot(a)->0 || found.contains(head),
        OpView::Sweeping { found, at, result } => found.contains(head),
        _ => true,
    }
}

/// Whether two operations hold nothing in common, and `a` has not verified a node that `b` has
/// yet to push.
pub open spec fn share_nothing(a: OpView, b: OpView) -> bool {
    &&& private_node(a) is Some ==> private_node(a) != private_node(b)
    &&& held_slot(a) is Some ==> held_slot(a) != held_slot(b)
    &&& b is Created || b is Linked ==> verified_node(a) != private_node(b)
    &&& !(holds_lock(a) && holds_lock(b))
}

/// Whether the operations of two threads keep out of each other's way.
pub open spec fn safe_ops_apart(s: SafeView, a: OpView, b: OpView) -> bool {
    share_nothing(a, b) && spares(s, b, a)
}

/// What holds of a race after every run of moves.
pub open spec fn safe_race_inv(r: SafeRace) -> bool {
    &&& safe_wf(r.stack)
    &&& forall|t: nat| #[trigger] r.ops.dom().contains(t) ==> op_is_sound(r.stack, r.ops[t])
    &&& forall|t: nat, u: nat|
        t != u && #[trigger] r.ops.dom().contains(t) && #[trigger] r.ops.dom().contains(u)
            ==> safe_ops_apart(r.stack, r.ops[t], r.ops[u])
    &&& r.pushed == values(r.stack.list).to_multiset().add(r.popped)
}

/// What a move does to the values on the stack: nothing, or it puts one on top, or it takes the
/// top one off.
pub open spec fn is_safe_stack_step(before: SafeRace, after: SafeRace) -> bool {
    let old_values = values(before.stack.list);
    let new_values = values(after.stack.list);
    ||| {
        &&& new_values == old_values
        &&& after.pushed == before.pushed
        &&& after.popped == before.popped
    }
    ||| exists|value: u32| #[trigger]
        old_values.push(value) == new_values && after.pushed == before.pushed.insert(value)
            && after.popped == before.popped
    ||| {
        &&& old_values.len() > 0
        &&& new_values == old_values.drop_last()
        &&& after.pushed == before.pushed
        &&& after.popped == before.popped.insert(old_values.last())
    }
}

/// An access leaves the stack well formed and its own operation sound.
proof fn step_keeps_own(s: SafeView, op: OpView)
    requires
        safe_wf(s),
        op_is_sound(s, op),
    ensures
        safe_wf(op_stepped(s, op).0),
        op_is_sound(op_stepped(s, op).0, op_stepped(s, op).1),
{
    let (p, next) = op_stepped(s, op);
    null_head_means_empty(s.list);
    match op {
        OpView::Created { node, value } => {
            detached_nodes_do_not_matter(s.list, node, Node { value, next: s.list.head });
        },
        OpView::Linked { node, value, seen } => {},
        OpView::Read { slot, head, next } => {
            if s.list.head == head {
                popping_takes_value(s.list);
                assert(p.list == popped_node(s.list));
                assert(s.list.chain.contains(head)) by {
                    assert(s.list.chain[s.list.chain.len() - 1] == head);
                }
                assert forall|i: int| 0 <= i < p.retired.len() implies is_detached(
                    p.list,
                    #[trigger] p.retired[i],
                ) by {
                    assert(is_detached(s.list, s.retired[i]));
                }
                assert(!p.retired.contains(head)) by {
                    if s.retired.contains(head) {
                        let i = s.retired.index_of(head);
                        assert(is_detached(s.list, s.retired[i]));
                    }
                }
            }
        },
        OpView::Sweeping { found, at, result } => {
            if at < s.retired.len() && !found.contains(s.retired[at as int]) {
                freeing_keeps_wf(s, at as int);
            }
        },
        _ => {},
    }
}

/// An access of one operation leaves the operation of another thread sound.
proof fn step_keeps_other(s: SafeView, op: OpView, other: OpView)
    requires
        safe_wf(s),
        op_is_sound(s, op),
        op_is_sound(s, other),
        safe_ops_apart(s, op, other),
        safe_ops_apart(s, other, op),
    ensures
        op_is_sound(op_stepped(s, op).0, other),
{
    let (p, next) = op_stepped(s, op);
    null_head_means_empty(s.list);
    match op {
        OpView::Read { slot, head, next } => {
            if s.list.head == head {
                popping_takes_value(s.list);
                assert(p.list == popped_node(s.list));
            }
        },
        OpView::Sweeping { found, at, result } => {
            if at < s.retired.len() && !found.contains(s.retired[at as int]) {
                let addr = s.retired[at as int];
                freeing_keeps_wf(s, at as int);
                assert(s.retired.contains(addr));
                freeing_retires_nothing(s, at as int);
            }
        },
        OpView::Retiring { head, value } => {
            if !s.locked {
                assert forall|x: usize| p.retired.contains(x) <==> s.retired.contains(x) || x
                    == head by {
                    if s.retired.contains(x) {
                        assert(p.retired[s.retired.index_of(x)] == x);
                    }
                    assert(p.retired.last() == head);
                }
            }
        },
        _ => {},
    }
}

/// An access of one operation takes nothing that the operation of another thread holds.
proof fn step_shares_nothing(s: SafeView, op: OpView, other: OpView)
    requires
        safe_wf(s),
        op_is_sound(s, op),
        op_is_sound(s, other),
        safe_ops_apart(s, op, other),
        safe_ops_apart(s, other, op),
    ensures
        share_nothing(op_stepped(s, op).1, other),
        share_nothing(other, op_stepped(s, op).1),
{
    if let OpView::Protected { slot, head } = op {
        head_is_on_chain(s.list, head);
    }
    if let OpView::Read { slot, head, next } = op {
        head_is_on_chain(s.list, head);
    }
}

/// An access of a pop leaves its verified node spared by a reclamation of another thread.
proof fn step_stays_spared(s: SafeView, op: OpView, other: OpView)
    requires
        safe_wf(s),
        op_is_sound(s, op),
        op_is_sound(s, other),
        safe_ops_apart(s, op, other),
        safe_ops_apart(s, other, op),
    ensures
        spares(op_stepped(s, op).0, other, op_stepped(s, op).1),
{
    if let OpView::Protected { slot, head } = op {
        head_is_on_chain(s.list, head);
        if s.list.head == head && s.retired.contains(head) {
            assert(is_detached(s.list, s.retired[s.retired.index_of(head)]));
        }
    }
}

/// A reclamation that reads the slot of a pop finds the node that the pop has verified.
proof fn scan_finds_the_verified(s: SafeView, op: OpView, other: OpView)
    requires
        safe_wf(s),
        op is Scanning,
        op_is_sound(s, other),
        spares(s, op, other),
    ensures
        spares(s, op_stepped(s, op).1, other),
{
    if let Some(head) = verified_node(other) {
        let slot = held_slot(other)->0;
        let found = op->Scanning_found;
        let at = op->Scanning_at;
        if at < MAX_HAZARDS && is_published(s.hazards[at as int]) {
            let ptr = s.hazards[at as int]->Publishing_0;
            chain_with_another(found, ptr);
            if at == slot {
                assert(ptr == head);
            }
        }
    }
}

/// An access of a reclamation spares the node that a pop of another thread has verified.
proof fn step_goes_on_sparing(s: SafeView, op: OpView, other: OpView)
    requires
        safe_wf(s),
        op_is_sound(s, op),
        op_is_sound(s, other),
        safe_ops_apart(s, op, other),
        safe_ops_apart(s, other, op),
    ensures
        spares(op_stepped(s, op).0, op_stepped(s, op).1, other),
{
    match op {
        OpView::Scanning { found, at, result } => {
            scan_finds_the_verified(s, op, other);
        },
        OpView::Sweeping { found, at, result } => {
            if at < s.retired.len() && !found.contains(s.retired[at as int]) {
                freeing_retires_nothing(s, at as int);
            }
        },
        _ => {},
    }
}

/// Freeing a retired node adds nothing to the queue.
proof fn freeing_retires_nothing(s: SafeView, at: int)
    requires
        0 <= at < s.retired.len(),
    ensures
        forall|x: usize| #[trigger]
            freed_at(s, at).retired.contains(x) ==> s.retired.contains(x),
{
    let p = freed_at(s, at);
    assert forall|x: usize| #[trigger] p.retired.contains(x) implies s.retired.contains(x) by {
        let i = p.retired.index_of(x);
        assert(s.retired[if i < at {
            i
        } else {
            i + 1
        }] == x);
    }
}

/// An access of one operation keeps the operations of two other threads apart.
proof fn step_keeps_others_apart(s: SafeView, op: OpView, a: OpView, b: OpView)
    requires
        safe_wf(s),
        op_is_sound(s, op),
        op_is_sound(s, b),
        safe_ops_apart(s, op, b),
        safe_ops_apart(s, a, b),
    ensures
        safe_ops_apart(op_stepped(s, op).0, a, b),
{
    let (p, next) = op_stepped(s, op);
    if let OpView::Sweeping { found, at, result } = op {
        if at < s.retired.len() && !found.contains(s.retired[at as int]) {
            freeing_retires_nothing(s, at as int);
        }
    }
}

/// What an access does to the values on the stack: a push that succeeds adds its value on top, a
/// pop that succeeds takes the top one off, and everything else leaves them.
proof fn step_is_stack_step(s: SafeView, op: OpView)
    requires
        safe_wf(s),
        op_is_sound(s, op),
    ensures
        ({
            let (p, next) = op_stepped(s, op);
            match op {
                OpView::Linked { node, value, seen } if next is Finished => values(p.list)
                    == values(s.list).push(value),
                OpView::Read { slot, head, next: n } if next is Won => values(s.list).len() > 0
                    && values(p.list) == values(s.list).drop_last() && next->Won_value
                    == values(s.list).last(),
                _ => values(p.list) == values(s.list),
            }
        }),
{
    let (p, next) = op_stepped(s, op);
    null_head_means_empty(s.list);
    match op {
        OpView::Created { node, value } => {
            detached_nodes_do_not_matter(s.list, node, Node { value, next: s.list.head });
        },
        OpView::Linked { node, value, seen } => {
            pushing_adds_value(s.list, node);
        },
        OpView::Read { slot, head, next: n } => {
            if s.list.head == head {
                popping_takes_value(s.list);
                assert(p.list == popped_node(s.list));
            }
        },
        OpView::Sweeping { found, at, result } => {
            if at < s.retired.len() && !found.contains(s.retired[at as int]) {
                freeing_keeps_wf(s, at as int);
            }
        },
        _ => {},
    }
}

/// An access keeps what holds of the race.
proof fn step_keeps_inv(r: SafeRace, thread: nat)
    requires
        safe_race_inv(r),
        r.ops.dom().contains(thread),
    ensures
        safe_race_inv(safe_stepped(r, thread)),
        is_safe_stack_step(r, safe_stepped(r, thread)),
{
    let p = safe_stepped(r, thread);
    let op = r.ops[thread];
    step_keeps_own(r.stack, op);
    step_is_stack_step(r.stack, op);
    match op {
        OpView::Linked { node, value, seen } => {
            push_moves_the_balance(values(r.stack.list), r.popped, value);
            if p.ops[thread] is Finished {
                assert(values(r.stack.list).push(value) == values(p.stack.list));
            }
        },
        OpView::Read { slot, head, next } => {
            if p.ops[thread] is Won {
                pop_keeps_the_balance(values(r.stack.list), r.popped);
            }
        },
        _ => {},
    }
    assert forall|t: nat| #[trigger] p.ops.dom().contains(t) implies op_is_sound(
        p.stack,
        p.ops[t],
    ) by {
        if t != thread {
            assert(r.ops.dom().contains(t));
            step_keeps_other(r.stack, op, r.ops[t]);
        }
    }
    assert forall|t: nat, u: nat|
        t != u && #[trigger] p.ops.dom().contains(t) && #[trigger] p.ops.dom().contains(
            u,
        ) implies safe_ops_apart(p.stack, p.ops[t], p.ops[u]) by {
        assert(r.ops.dom().contains(t) && r.ops.dom().contains(u));
        if t == thread {
            step_shares_nothing(r.stack, op, r.ops[u]);
            step_stays_spared(r.stack, op, r.ops[u]);
        } else if u == thread {
            step_shares_nothing(r.stack, op, r.ops[t]);
            step_goes_on_sparing(r.stack, op, r.ops[t]);
        } else {
            step_keeps_others_apart(r.stack, op, r.ops[t], r.ops[u]);
        }
    }
}

/// Every move keeps what holds of a race, and is a step of a stack.
pub proof fn safe_race_inv_is_kept(r: SafeRace, m: SafeMove)
    requires
        safe_race_inv(r),
        can_move_safe(r, m),
    ensures
        safe_race_inv(moved_safe(r, m)),
        is_safe_stack_step(r, moved_safe(r, m)),
{
    let p = moved_safe(r, m);
    match m {
        SafeMove::Push { thread, value, node } => {
            detached_nodes_do_not_matter(r.stack.list, node, Node { value, next: 0 });
            assert forall|i: int| 0 <= i < p.stack.retired.len() implies is_detached(
                p.stack.list,
                #[trigger] p.stack.retired[i],
            ) by {
                assert(is_detached(r.stack.list, r.stack.retired[i]));
            }
            assert(!r.stack.retired.contains(node)) by {
                if r.stack.retired.contains(node) {
                    let i = r.stack.retired.index_of(node);
                    assert(is_detached(r.stack.list, r.stack.retired[i]));
                }
            }
        },
        SafeMove::Pop { thread, slot } => {},
        SafeMove::Reclaim { thread } => {},
        SafeMove::Step { thread } => {
            step_keeps_inv(r, thread);
        },
        SafeMove::Return { thread } => {},
    }
}

/// A stack that nobody uses yet.
pub open spec fn safe_race_starts(r: SafeRace) -> bool {
    &&& safe_wf(r.stack)
    &&& r.ops == Map::<nat, OpView>::empty()
    &&& r.pushed == values(r.stack.list).to_multiset()
    &&& r.popped == Multiset::<u32>::empty()
}

/// The race after a run of moves.
pub open spec fn moved_all_safe(r: SafeRace, moves: Seq<SafeMove>) -> SafeRace
    decreases moves.len(),
{
    if moves.len() == 0 {
        r
    } else {
        moved_safe(moved_all_safe(r, moves.drop_last()), moves.last())
    }
}

/// Whether a run of moves can be made, one after the other.
pub open spec fn can_move_all_safe(r: SafeRace, moves: Seq<SafeMove>) -> bool
    decreases moves.len(),
{
    moves.len() > 0 ==> {
        &&& can_move_all_safe(r, moves.drop_last())
        &&& can_move_safe(moved_all_safe(r, moves.drop_last()), moves.last())
    }
}

/// A stack that nobody uses yet has what holds of a race.
pub proof fn safe_race_inv_holds_at_start(r: SafeRace)
    requires
        safe_race_starts(r),
    ensures
        safe_race_inv(r),
{
    assert(r.pushed =~= values(r.stack.list).to_multiset().add(r.popped));
}

/// What holds of a race holds after every run of moves, however the threads interleave.
pub proof fn safe_race_inv_is_kept_by_all(r: SafeRace, moves: Seq<SafeMove>)
    requires
        safe_race_inv(r),
        can_move_all_safe(r, moves),
    ensures
        safe_race_inv(moved_all_safe(r, moves)),
    decreases moves.len(),
{
    if moves.len() > 0 {
        safe_race_inv_is_kept_by_all(r, moves.drop_last());
        safe_race_inv_is_kept(moved_all_safe(r, moves.drop_last()), moves.last());
    }
}

/// No value is lost and none is popped twice: after every run of moves, each value was pushed
/// as often as it is on the stack or was popped.
pub proof fn safe_stack_loses_nothing(r: SafeRace, moves: Seq<SafeMove>, value: u32)
    requires
        safe_race_starts(r),
        can_move_all_safe(r, moves),
    ensures
        ({
            let end = moved_all_safe(r, moves);
            end.pushed.count(value) == values(end.stack.list).to_multiset().count(value)
                + end.popped.count(value)
        }),
{
    safe_race_inv_holds_at_start(r);
    safe_race_inv_is_kept_by_all(r, moves);
}

/// Threads that pop until the stack is empty have popped exactly what was pushed.
pub proof fn drained_safe_stack_gave_all_back(r: SafeRace, moves: Seq<SafeMove>)
    requires
        safe_race_starts(r),
        can_move_all_safe(r, moves),
        moved_all_safe(r, moves).stack.list.head == 0,
    ensures
        moved_all_safe(r, moves).popped == moved_all_safe(r, moves).pushed,
{
    let end = moved_all_safe(r, moves);
    safe_race_inv_holds_at_start(r);
    safe_race_inv_is_kept_by_all(r, moves);
    null_head_means_empty(end.stack.list);
    assert(values(end.stack.list) =~= Seq::<u32>::empty());
    values(end.stack.list).to_multiset_ensures();
    assert(end.popped =~= end.pushed);
}

/// The thread that makes a move.
pub open spec fn mover(m: SafeMove) -> nat {
    match m {
        SafeMove::Push { thread, value, node } => thread,
        SafeMove::Pop { thread, slot } => thread,
        SafeMove::Reclaim { thread } => thread,
        SafeMove::Step { thread } => thread,
        SafeMove::Return { thread } => thread,
    }
}

/// A node that a pop has verified exists, and no move of another thread frees it or changes it:
/// its address does not come back under the pop.
pub proof fn verified_node_stays(r: SafeRace, m: SafeMove, thread: nat, head: usize)
    requires
        safe_race_inv(r),
        can_move_safe(r, m),
        r.ops.dom().contains(thread),
        verified_node(r.ops[thread]) == Some(head),
        mover(m) != thread,
    ensures
        r.stack.list.nodes.dom().contains(head),
        moved_safe(r, m).ops[thread] == r.ops[thread],
        moved_safe(r, m).stack.list.nodes.dom().contains(head),
        moved_safe(r, m).stack.list.nodes[head] == r.stack.list.nodes[head],
{
    if let SafeMove::Step { thread: other } = m {
        step_keeps_other(r.stack, r.ops[other], r.ops[thread]);
    }
}

/// A pop whose compare-and-swap finds the head that it has read swaps in what that head links to
/// now, not what it linked to at some earlier time.
pub proof fn swapped_in_link_is_current(r: SafeRace, thread: nat)
    requires
        safe_race_inv(r),
        r.ops.dom().contains(thread),
        r.ops[thread] is Read,
        r.ops[thread]->Read_head == r.stack.list.head,
    ensures
        r.ops[thread]->Read_next == r.stack.list.nodes[r.stack.list.head].next,
        moved_safe(r, SafeMove::Step { thread }).stack.list == popped_node(r.stack.list),
{
}

/// A pop gives up, to return `None`, exactly if it finds nothing on the stack at that moment.
pub proof fn pop_gives_up_only_on_empty(r: SafeRace, thread: nat)
    requires
        safe_race_inv(r),
        r.ops.dom().contains(thread),
        r.ops[thread] is Begun,
    ensures
        moved_safe(r, SafeMove::Step { thread }).ops[thread] is Empty <==> values(
            r.stack.list,
        ).len() == 0,
        moved_safe(r, SafeMove::Step { thread }).ops[thread] is Loaded <==> values(
            r.stack.list,
        ).len() > 0,
{
    null_head_means_empty(r.stack.list);
}

/// Every node that an operation reads, writes or retires exists at that moment, and every node
/// that a reclamation frees does.
pub proof fn safe_operations_hold_live_nodes(r: SafeRace, thread: nat)
    requires
        safe_race_inv(r),
        r.ops.dom().contains(thread),
    ensures
        private_node(r.ops[thread]) matches Some(node) ==> r.stack.list.nodes.dom().contains(node),
        verified_node(r.ops[thread]) matches Some(node) ==> r.stack.list.nodes.dom().contains(node),
        forall|i: int|
            0 <= i < r.stack.retired.len() ==> r.stack.list.nodes.dom().contains(
                #[trigger] r.stack.retired[i],
            ),
{
    assert forall|i: int| 0 <= i < r.stack.retired.len() implies r.stack.list.nodes.dom().contains(
        #[trigger] r.stack.retired[i],
    ) by {
        assert(is_detached(r.stack.list, r.stack.retired[i]));
    }
}

/// The value that a pop that has taken one off will return.
pub open spec fn value_to_return(op: OpView) -> Option<u32> {
    match op {
        OpView::Won { slot, head, value } => Some(value),
        OpView::Valued { slot, head, value } => Some(value),
        OpView::Cleared { slot, head, value } => Some(value),
        OpView::Retiring { head, value } => Some(value),
        OpView::Scanning { found, at, result } => result,
        OpView::Sweeping { found, at, result } => result,
        OpView::Finished { result } => result,
        _ => None,
    }
}

/// A pop that has taken a value off returns that value, whatever other threads do meanwhile.
pub proof fn taken_value_is_returned(r: SafeRace, m: SafeMove, thread: nat)
    requires
        safe_race_inv(r),
        can_move_safe(r, m),
        r.ops.dom().contains(thread),
        value_to_return(r.ops[thread]) is Some,
        !(m is Return && mover(m) == thread),
    ensures
        moved_safe(r, m).ops.dom().contains(thread),
        value_to_return(moved_safe(r, m).ops[thread]) == value_to_return(r.ops[thread]),
{
}

/// Whether the operation of thread `t` holds the node at `addr` alone.
pub open spec fn holds_node(r: SafeRace, t: nat, addr: usize) -> bool {
    r.ops.dom().contains(t) && private_node(r.ops[t]) == Some(addr)
}

/// Whether every node is on the stack, retired, or held by an operation.
pub open spec fn every_node_is_held(r: SafeRace) -> bool {
    forall|addr: usize| #[trigger]
        is_private(r.stack, addr) ==> exists|t: nat| #[trigger] holds_node(r, t, addr)
}

/// A node that an access leaves off the stack and not retired is held by that operation, or was
/// so before and held by another.
proof fn step_lets_go_of_nothing(s: SafeView, op: OpView, addr: usize)
    requires
        safe_wf(s),
        op_is_sound(s, op),
        is_private(op_stepped(s, op).0, addr),
    ensures
        private_node(op_stepped(s, op).1) == Some(addr) || is_private(s, addr) && private_node(op)
            != Some(addr),
{
    let (p, next) = op_stepped(s, op);
    match op {
        OpView::Linked { node, value, seen } => {
            if s.list.head == seen {
                chain_with_another(s.list.chain, node);
            }
        },
        OpView::Read { slot, head, next: n } => {
            if s.list.head == head {
                head_is_on_chain(s.list, head);
                if s.list.chain.contains(addr) && addr != head {
                    chain_without_last(s.list.chain, addr);
                }
            }
        },
        OpView::Retiring { head, value } => {
            if !s.locked {
                assert(p.retired.last() == head);
                if s.retired.contains(addr) {
                    assert(p.retired[s.retired.index_of(addr)] == addr);
                }
            }
        },
        OpView::Sweeping { found, at, result } => {
            if at < s.retired.len() && !found.contains(s.retired[at as int]) {
                freeing_strays_nothing(s, at as int, addr);
            }
        },
        _ => {},
    }
}

/// No move leaks a node.
pub proof fn every_node_stays_held(r: SafeRace, m: SafeMove)
    requires
        safe_race_inv(r),
        every_node_is_held(r),
        can_move_safe(r, m),
    ensures
        every_node_is_held(moved_safe(r, m)),
{
    let p = moved_safe(r, m);
    assert forall|addr: usize| #[trigger] is_private(p.stack, addr) implies exists|t: nat|
        #[trigger] holds_node(p, t, addr) by {
        let thread = mover(m);
        match m {
            SafeMove::Push { thread, value, node } => {
                if addr == node {
                    assert(holds_node(p, thread, addr));
                } else {
                    assert(is_private(r.stack, addr));
                    let t = choose|t: nat| #[trigger] holds_node(r, t, addr);
                    assert(holds_node(p, t, addr));
                }
            },
            SafeMove::Step { thread } => {
                step_lets_go_of_nothing(r.stack, r.ops[thread], addr);
                if private_node(p.ops[thread]) == Some(addr) {
                    assert(holds_node(p, thread, addr));
                } else {
                    let t = choose|t: nat| #[trigger] holds_node(r, t, addr);
                    assert(holds_node(p, t, addr));
                }
            },
            _ => {
                assert(is_private(r.stack, addr));
                let t = choose|t: nat| #[trigger] holds_node(r, t, addr);
                assert(holds_node(p, t, addr));
            },
        }
    }
}

/// No run of moves leaks a node: on a stack that started with no stray nodes, every node is on
/// the stack, retired, or held by an operation in progress.
pub proof fn no_node_leaks(r: SafeRace, moves: Seq<SafeMove>)
    requires
        safe_race_starts(r),
        forall|addr: usize| !is_private(r.stack, addr),
        can_move_all_safe(r, moves),
    ensures
        every_node_is_held(moved_all_safe(r, moves)),
    decreases moves.len(),
{
    if moves.len() > 0 {
        safe_race_inv_holds_at_start(r);
        safe_race_inv_is_kept_by_all(r, moves.drop_last());
        no_node_leaks(r, moves.drop_last());
        every_node_stays_held(moved_all_safe(r, moves.drop_last()), moves.last());
    }
}

/// Once all operations are over, every node is on the stack or retired, and so the stack can
/// free them all.
pub proof fn idle_stack_has_no_stray_nodes(r: SafeRace, addr: usize)
    requires
        every_node_is_held(r),
        r.ops.dom() == Set::<nat>::empty(),
        r.stack.list.nodes.dom().contains(addr),
    ensures
        r.stack.list.chain.contains(addr) || r.stack.retired.contains(addr),
{
    if is_private(r.stack, addr) {
        let t = choose|t: nat| #[trigger] holds_node(r, t, addr);
        assert(r.ops.dom().contains(t));
    }
}

/// Whether the operation of thread `t` holds slot `i`.
pub open spec fn holds_slot(r: SafeRace, t: nat, i: nat) -> bool {
    r.ops.dom().contains(t) && held_slot(r.ops[t]) == Some(i)
}

/// Whether the operation of thread `t` holds the lock on the retired queue.
pub open spec fn has_lock(r: SafeRace, t: nat) -> bool {
    r.ops.dom().contains(t) && holds_lock(r.ops[t])
}

/// Whether every slot that is acquired, and the lock if it is taken, belongs to an operation.
pub open spec fn slots_and_lock_have_holders(r: SafeRace) -> bool {
    &&& forall|i: nat| #[trigger]
        slot_is_held(r.stack, i) ==> exists|t: nat| #[trigger] holds_slot(r, t, i)
    &&& r.stack.locked ==> exists|t: nat| #[trigger] has_lock(r, t)
}

/// A slot that an access leaves acquired, and a lock that it leaves taken, belongs to that
/// operation, or was so before and belongs to another.
proof fn step_abandons_nothing(s: SafeView, op: OpView, i: nat)
    requires
        op_is_sound(s, op),
    ensures
        slot_is_held(op_stepped(s, op).0, i) ==> held_slot(op_stepped(s, op).1) == Some(i)
            || slot_is_held(s, i) && held_slot(op) != Some(i),
        op_stepped(s, op).0.locked ==> holds_lock(op_stepped(s, op).1) || s.locked && !holds_lock(
            op,
        ),
{
}

/// No move leaves a slot acquired or the lock taken with nobody to give it back.
pub proof fn slots_and_lock_keep_holders(r: SafeRace, m: SafeMove)
    requires
        safe_race_inv(r),
        slots_and_lock_have_holders(r),
        can_move_safe(r, m),
    ensures
        slots_and_lock_have_holders(moved_safe(r, m)),
{
    let p = moved_safe(r, m);
    assert forall|i: nat| #[trigger] slot_is_held(p.stack, i) implies exists|t: nat| #[trigger]
        holds_slot(p, t, i) by {
        if let SafeMove::Step { thread } = m {
            step_abandons_nothing(r.stack, r.ops[thread], i);
        }
        if !holds_slot(p, mover(m), i) {
            assert(slot_is_held(r.stack, i));
            let t = choose|t: nat| #[trigger] holds_slot(r, t, i);
            assert(holds_slot(p, t, i));
        }
    }
    if p.stack.locked {
        if let SafeMove::Step { thread } = m {
            step_abandons_nothing(r.stack, r.ops[thread], 0);
        }
        if !has_lock(p, mover(m)) {
            let t = choose|t: nat| #[trigger] has_lock(r, t);
            assert(has_lock(p, t));
        }
    }
}

proof fn slots_and_lock_keep_holders_in_all(r: SafeRace, moves: Seq<SafeMove>)
    requires
        safe_race_inv(r),
        slots_and_lock_have_holders(r),
        can_move_all_safe(r, moves),
    ensures
        slots_and_lock_have_holders(moved_all_safe(r, moves)),
    decreases moves.len(),
{
    if moves.len() > 0 {
        safe_race_inv_is_kept_by_all(r, moves.drop_last());
        slots_and_lock_keep_holders_in_all(r, moves.drop_last());
        slots_and_lock_keep_holders(moved_all_safe(r, moves.drop_last()), moves.last());
    }
}

/// Once all operations have returned, no slot is held and the queue is not locked, so that a pop,
/// a reclamation or a drain can be called.
pub proof fn idle_stack_is_free_for_use(r: SafeRace, moves: Seq<SafeMove>)
    requires
        safe_race_starts(r),
        forall|i: int| 0 <= i < r.stack.hazards.len() ==> (#[trigger] r.stack.hazards[i]) is Unused,
        !r.stack.locked,
        can_move_all_safe(r, moves),
        moved_all_safe(r, moves).ops.dom() == Set::<nat>::empty(),
    ensures
        ({
            let end = moved_all_safe(r, moves).stack;
            &&& safe_wf(end)
            &&& !end.locked
            &&& end.hazards == unused_slots()
            &&& first_unused(end.hazards, 0) < MAX_HAZARDS
        }),
{
    let end = moved_all_safe(r, moves);
    safe_race_inv_holds_at_start(r);
    safe_race_inv_is_kept_by_all(r, moves);
    slots_and_lock_keep_holders_in_all(r, moves);
    assert(!end.stack.locked) by {
        if end.stack.locked {
            let t = choose|t: nat| #[trigger] has_lock(end, t);
            assert(end.ops.dom().contains(t));
        }
    }
    assert forall|i: int| 0 <= i < end.stack.hazards.len() implies (#[trigger] end.stack.hazards[i])
        is Unused by {
        if slot_is_held(end.stack, i as nat) {
            let t = choose|t: nat| #[trigger] holds_slot(end, t, i as nat);
            assert(end.ops.dom().contains(t));
        }
    }
    assert(end.stack.hazards =~= unused_slots());
}

/// Whether `op` is a push in progress.
pub open spec fn is_pushing(op: OpView) -> bool {
    op is Created || op is Linked
}

/// Whether `op` is a pop in progress.
pub open spec fn is_popping(op: OpView) -> bool {
    ||| held_slot(op) is Some
    ||| op is Retiring
    ||| op is Scanning && op->Scanning_result is Some
    ||| op is Sweeping && op->Sweeping_result is Some
}

/// Whether `op` is a reclamation in progress that no pop has started.
pub open spec fn is_reclaiming(op: OpView) -> bool {
    ||| op is Locking
    ||| op is Scanning && op->Scanning_result is None
    ||| op is Sweeping && op->Sweeping_result is None
}

/// The value that a push in progress is to put on the stack.
pub open spec fn value_to_push(op: OpView) -> Option<u32> {
    match op {
        OpView::Created { node, value } => Some(value),
        OpView::Linked { node, value, seen } => Some(value),
        _ => None,
    }
}

/// From every state of a push in progress: it is over exactly at the moment that its value is put
/// on top, and until then it goes on, with the same value, and changes nothing on the stack.
pub proof fn push_is_over_once_its_value_is_on_top(s: SafeView, op: OpView)
    requires
        safe_wf(s),
        op_is_sound(s, op),
        is_pushing(op),
    ensures
        ({
            let (p, next) = op_stepped(s, op);
            &&& p.hazards == s.hazards
            &&& p.retired == s.retired
            &&& p.locked == s.locked
            &&& {
                ||| {
                    &&& next == OpView::Finished { result: None }
                    &&& values(p.list) == values(s.list).push(value_to_push(op)->0)
                }
                ||| {
                    &&& is_pushing(next)
                    &&& value_to_push(next) == value_to_push(op)
                    &&& private_node(next) == private_node(op)
                    &&& values(p.list) == values(s.list)
                }
            }
        }),
{
    step_is_stack_step(s, op);
}

/// From every state of a pop in progress: it makes up its mind to return `None` only if the stack
/// holds no value at that moment, and returns a value only if it took that value off before. It
/// takes a value off only from the top, and never lets go of one that it took. Otherwise it goes
/// on, and changes nothing on the stack.
pub proof fn pop_is_over_once_it_has_its_answer(s: SafeView, op: OpView)
    requires
        safe_wf(s),
        op_is_sound(s, op),
        is_popping(op),
    ensures
        ({
            let (p, next) = op_stepped(s, op);
            &&& is_popping(next) || next is Finished
            &&& next is Empty && !(op is Empty) ==> values(s.list).len() == 0
            &&& next == (OpView::Finished { result: None }) ==> op is Empty
            &&& op is Empty ==> next is Empty || next == (OpView::Finished { result: None })
            &&& value_to_return(op) is Some ==> value_to_return(next) == value_to_return(op)
            &&& value_to_return(op) is None && value_to_return(next) is Some ==> {
                &&& op is Read
                &&& next is Won
                &&& values(s.list).len() > 0
                &&& value_to_return(next) == Some(values(s.list).last())
                &&& values(p.list) == values(s.list).drop_last()
            }
            &&& value_to_return(op) is Some || value_to_return(next) is None ==> values(p.list)
                == values(s.list)
        }),
{
    null_head_means_empty(s.list);
    step_is_stack_step(s, op);
}

/// A reclamation in progress changes no value of the stack, and returns none.
pub proof fn reclamation_leaves_the_values_alone(s: SafeView, op: OpView)
    requires
        safe_wf(s),
        op_is_sound(s, op),
        is_reclaiming(op),
    ensures
        is_reclaiming(op_stepped(s, op).1) || op_stepped(s, op).1 == (OpView::Finished {
            result: None,
        }),
        values(op_stepped(s, op).0.list) == values(s.list),
        op_stepped(s, op).0.list.head == s.list.head,
        op_stepped(s, op).0.hazards == s.hazards,
{
    step_is_stack_step(s, op);
}

/// An operation starts over only after a lost race: the head is no longer the one that it had
/// seen. One that is over stays as it is.
pub proof fn operations_retry_only_after_a_lost_race(s: SafeView, op: OpView)
    ensures
        op matches OpView::Created { node, value } ==> op_stepped(s, op).1 == (OpView::Linked {
            node,
            value,
            seen: s.list.head,
        }),
        op matches OpView::Linked { node, value, seen } ==> (op_stepped(s, op).1 is Finished
            <==> s.list.head == seen),
        op matches OpView::Begun { slot } ==> s.list.head != 0 ==> op_stepped(s, op).1 == (
        OpView::Loaded { slot, head: s.list.head }),
        op matches OpView::Loaded { slot, head } ==> s.list.head == head ==> op_stepped(s, op).1 == (
        OpView::Protected { slot, head }),
        op matches OpView::Protected { slot, head } ==> (op_stepped(s, op).1 == (
        OpView::Verified { slot, head }) <==> s.list.head == head),
        op matches OpView::Verified { slot, head } ==> s.list.head == head ==> op_stepped(s, op).1
            is Read,
        op matches OpView::Read { slot, head, next } ==> (op_stepped(s, op).1 is Won <==> s.list.head
            == head),
        op is Finished ==> op_stepped(s, op) == (s, op),
{
}

/// A pop publishes the head that it has seen before it verifies it, and publishes it until it has
/// read what it needs.
pub proof fn pop_publishes_what_it_reads(s: SafeView, op: OpView, slot: nat, head: usize)
    requires
        op_is_sound(s, op),
        op == (OpView::Protected { slot, head }) || op == (OpView::Verified { slot, head }) || op
            is Read && op->Read_slot == slot && op->Read_head == head || op is Won && op->Won_slot
            == slot && op->Won_head == head || op is Valued && op->Valued_slot == slot
            && op->Valued_head == head,
    ensures
        slot < s.hazards.len(),
        s.hazards[slot as int] == SlotState::Publishing(head),
{
}

/// An access changes no slot but the operation's own. It adds to the retired queue only the node
/// that the operation has popped.
pub proof fn accesses_touch_own_slots_alone(s: SafeView, op: OpView, i: int, addr: usize)
    requires
        safe_wf(s),
        op_is_sound(s, op),
        0 <= i < s.hazards.len(),
    ensures
        op_stepped(s, op).0.hazards.len() == s.hazards.len(),
        held_slot(op) != Some(i as nat) ==> op_stepped(s, op).0.hazards[i] == s.hazards[i],
        op_stepped(s, op).0.retired.contains(addr) && !s.retired.contains(addr) ==> op is Retiring
            && op->Retiring_head == addr,
{
    if let OpView::Sweeping { found, at, result } = op {
        if at < s.retired.len() && !found.contains(s.retired[at as int]) {
            freeing_retires_nothing(s, at as int);
        }
    }
}

/// A node is freed only by a reclamation, only if it is retired, and only if the reclamation has
/// not found it published. Every other node stays as it is, but for one that a push has yet to
/// put on the stack.
pub proof fn only_reclamations_free_nodes(s: SafeView, op: OpView, addr: usize)
    requires
        safe_wf(s),
        op_is_sound(s, op),
        s.list.nodes.dom().contains(addr),
    ensures
        ({
            let p = op_stepped(s, op).0;
            &&& !p.list.nodes.dom().contains(addr) ==> op is Sweeping && s.retired.contains(addr)
                && !op->Sweeping_found.contains(addr)
            &&& p.list.nodes.dom().contains(addr) && private_node(op) != Some(addr)
                ==> p.list.nodes[addr] == s.list.nodes[addr]
            &&& p.list.nodes.dom().contains(addr) ==> p.list.nodes[addr].value
                == s.list.nodes[addr].value
        }),
{
}

/// A popped node is retired as soon as nobody holds the lock, and none is freed at that moment.
/// A reclamation follows exactly if the queue has then grown past 64 nodes.
pub proof fn retiring_adds_one_node(s: SafeView, head: usize, value: u32)
    ensures
        ({
            let op = OpView::Retiring { head, value };
            let (p, next) = op_stepped(s, op);
            &&& s.locked ==> (p, next) == (s, op)
            &&& p.list == s.list
            &&& p.hazards == s.hazards
            &&& !s.locked ==> p.retired == s.retired.push(head)
            &&& !s.locked && p.retired.len() <= 64 ==> !p.locked && next == (OpView::Finished {
                result: Some(value),
            })
            &&& !s.locked && p.retired.len() > 64 ==> p.locked && next == (OpView::Scanning {
                found: Seq::empty(),
                at: 0,
                result: Some(value),
            })
        }),
{
}

/// A reclamation reads every slot once, and takes note of each pointer other than null that it
/// finds published; then it goes through the queue, keeps each node that it took note of, frees
/// each other one, and gives the lock back when there is none left.
pub proof fn reclamation_reads_all_slots_then_all_nodes(s: SafeView, op: OpView)
    requires
        safe_wf(s),
        op_is_sound(s, op),
    ensures
        ({
            let (p, next) = op_stepped(s, op);
            &&& op is Locking && !s.locked ==> p == (SafeView { locked: true, ..s }) && next == (
            OpView::Scanning { found: Seq::empty(), at: 0, result: None })
            &&& op is Locking && s.locked ==> (p, next) == (s, op)
            &&& op matches OpView::Scanning { found, at, result } ==> p == s && (if at < 64 {
                &&& next is Scanning
                &&& next->Scanning_at == at + 1
                &&& next->Scanning_result == result
                &&& next->Scanning_found == (match s.hazards[at as int] {
                    SlotState::Publishing(ptr) => if ptr != 0 {
                        found.push(ptr)
                    } else {
                        found
                    },
                    _ => found,
                })
            } else {
                next == (OpView::Sweeping { found, at: 0, result })
            })
            &&& op matches OpView::Sweeping { found, at, result } ==> (if at >= s.retired.len() {
                &&& next == (OpView::Finished { result })
                &&& p == (SafeView { locked: false, ..s })
            } else if found.contains(s.retired[at as int]) {
                &&& next == (OpView::Sweeping { found, at: at + 1, result })
                &&& p == s
            } else {
                &&& next == op
                &&& p.retired == s.retired.remove(at as int)
                &&& p.list.nodes == s.list.nodes.remove(s.retired[at as int])
                &&& p.list.chain == s.list.chain
                &&& p.list.head == s.list.head
                &&& p.hazards == s.hazards
                &&& p.locked == s.locked
            })
        }),
{
}

/// What `n` accesses of an operation that nobody disturbs lead to.
pub open spec fn after_accesses(s: SafeView, op: OpView, n: nat) -> (SafeView, OpView)
    decreases n,
{
    if n == 0 {
        (s, op)
    } else {
        let (p, next) = op_stepped(s, op);
        after_accesses(p, next, (n - 1) as nat)
    }
}

/// A bound on the accesses that an operation that nobody disturbs has before it.
spec fn accesses_left(s: SafeView, op: OpView) -> int {
    let n = s.retired.len() as int;
    match op {
        OpView::Created { node, value } => 2,
        OpView::Linked { node, value, seen } => if s.list.head == seen {
            1
        } else {
            3
        },
        OpView::Begun { slot } => n + 78,
        OpView::Empty { slot } => 1,
        OpView::Loaded { slot, head } => if s.list.head == head {
            n + 77
        } else {
            n + 80
        },
        OpView::Protected { slot, head } => if s.list.head == head {
            n + 76
        } else {
            n + 79
        },
        OpView::Verified { slot, head } => if s.list.head == head {
            n + 75
        } else {
            n + 80
        },
        OpView::Read { slot, head, next } => if s.list.head == head {
            n + 74
        } else {
            n + 79
        },
        OpView::Won { slot, head, value } => n + 73,
        OpView::Valued { slot, head, value } => n + 72,
        OpView::Cleared { slot, head, value } => n + 71,
        OpView::Retiring { head, value } => n + 70,
        OpView::Locking => n + 70,
        OpView::Scanning { found, at, result } => 64 - at + n + 2,
        OpView::Sweeping { found, at, result } => n - at + 1,
        OpView::Finished { result } => 0,
    }
}

proof fn undisturbed_accesses_run_out(s: SafeView, op: OpView, n: nat)
    requires
        safe_wf(s),
        op_is_sound(s, op),
        s.locked ==> holds_lock(op),
        n >= accesses_left(s, op),
    ensures
        after_accesses(s, op, n).1 is Finished,
    decreases n,
{
    if n > 0 {
        let (p, next) = op_stepped(s, op);
        step_keeps_own(s, op);
        if op is Finished {
            assert(accesses_left(p, next) <= n - 1);
        } else {
            assert(p.locked ==> holds_lock(next));
            assert(accesses_left(p, next) < accesses_left(s, op));
        }
        undisturbed_accesses_run_out(p, next, (n - 1) as nat);
    }
}

/// An operation that nobody disturbs, and that need not wait for the lock of another, is over
/// after a number of accesses that the length of the retired queue bounds, from whatever state it
/// is in.
pub proof fn undisturbed_operation_finishes(s: SafeView, op: OpView, n: nat)
    requires
        safe_wf(s),
        op_is_sound(s, op),
        s.locked ==> holds_lock(op),
        n >= s.retired.len() + 80,
    ensures
        after_accesses(s, op, n).1 is Finished,
{
    undisturbed_accesses_run_out(s, op, n);
}

} // verus!
