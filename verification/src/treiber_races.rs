//! What the [`TreiberStack`](crate::TreiberStack) guarantees when many threads use it at once.
//!
//! Threads interleave between any two accesses to shared memory. A [`Race`] is the list of
//! nodes together with every operation that some thread is in the middle of; a [`Move`] starts
//! an operation, or takes its next access, as
//! [`TreiberStack::step`](crate::TreiberStack::step) does. As long as no thread frees a node that another pop
//! still has in hand, every run of moves behaves like a stack: an operation takes effect at the
//! moment its compare-and-swap succeeds, on top of the stack, and no value is lost or popped
//! twice.

use crate::nodes::{
    chain_with_another, chain_without_last, detached_nodes_do_not_matter, is_detached, list_wf, null_head_means_empty, popped_node,
    popping_takes_value, pushing_adds_value, values, with_node, ListView, Node,
};
use crate::treiber::{has_no_stray_nodes, op_is_sound, op_stepped, Op};
use vstd::multiset::Multiset;
use vstd::prelude::*;

verus! {

/// The list, the operations of all threads, and the values that were pushed and popped so far.
pub struct Race {
    pub list: ListView,
    pub ops: Map<nat, Op>,
    pub pushed: Multiset<u32>,
    pub popped: Multiset<u32>,
}

/// What a thread does.
pub enum Move {
    /// Start to push `value`, in a node at an address that no other node has.
    Push { thread: nat, value: u32, node: usize },
    /// Start to pop.
    Pop { thread: nat },
    /// Take the next access of the operation.
    Step { thread: nat },
    /// Return from an operation that is over.
    Return { thread: nat },
}

/// Whether `op` is a pop with the node at `addr` in hand.
pub open spec fn has_in_hand(op: Op, addr: usize) -> bool {
    ||| op matches Op::Loaded { head } && head == addr
    ||| op matches Op::Read { head, next } && head == addr
}

/// The node that belongs to `op` alone: one that it has yet to push, or has popped.
pub open spec fn own_node(op: Op) -> Option<usize> {
    match op {
        Op::Created { node, value } => Some(node),
        Op::Linked { node, value, seen } => Some(node),
        Op::Won { head, value } => Some(head),
        _ => None,
    }
}

/// Whether a move can be made. The premise that the stack rests on: a node is freed only when
/// no other pop has it in hand, so that its address cannot come back under that pop.
pub open spec fn can_move(r: Race, m: Move) -> bool {
    match m {
        Move::Push { thread, value, node } => {
            &&& !r.ops.dom().contains(thread)
            &&& node != 0
            &&& !r.list.nodes.dom().contains(node)
        },
        Move::Pop { thread } => !r.ops.dom().contains(thread),
        Move::Step { thread } => {
            &&& r.ops.dom().contains(thread)
            &&& r.ops[thread] matches Op::Won { head, value } ==> forall|other: nat|
                other != thread && #[trigger] r.ops.dom().contains(other) ==> !has_in_hand(
                    r.ops[other],
                    head,
                )
        },
        Move::Return { thread } => r.ops.dom().contains(thread) && r.ops[thread] is Finished,
    }
}

/// The race after the next access of `thread`. A push counts when its compare-and-swap puts the
/// node on top, a pop when its compare-and-swap takes the node off.
pub open spec fn stepped(r: Race, thread: nat) -> Race {
    let (list, op) = op_stepped(r.list, r.ops[thread]);
    Race {
        list,
        ops: r.ops.insert(thread, op),
        pushed: match r.ops[thread] {
            Op::Linked { node, value, seen } if op is Finished => r.pushed.insert(value),
            _ => r.pushed,
        },
        popped: match op {
            Op::Won { head, value } if r.ops[thread] is Read => r.popped.insert(value),
            _ => r.popped,
        },
    }
}

/// The race after a move.
pub open spec fn moved(r: Race, m: Move) -> Race {
    match m {
        Move::Push { thread, value, node } => Race {
            list: with_node(r.list, node, Node { value, next: 0 }),
            ops: r.ops.insert(thread, Op::Created { node, value }),
            ..r
        },
        Move::Pop { thread } => Race { ops: r.ops.insert(thread, Op::Begun), ..r },
        Move::Step { thread } => stepped(r, thread),
        Move::Return { thread } => Race { ops: r.ops.remove(thread), ..r },
    }
}

/// Whether the operations of two threads keep out of each other's way: no node belongs to both,
/// and neither has a node in hand that the other has yet to push.
pub open spec fn ops_are_apart(a: Op, b: Op) -> bool {
    &&& own_node(a) is Some ==> own_node(a) != own_node(b)
    &&& b is Created || b is Linked ==> !has_in_hand(a, own_node(b)->0)
}

/// What holds of a race after every run of moves.
pub open spec fn race_inv(r: Race) -> bool {
    &&& list_wf(r.list)
    &&& forall|t: nat| #[trigger] r.ops.dom().contains(t) ==> op_is_sound(r.list, r.ops[t])
    &&& forall|t: nat, u: nat|
        t != u && #[trigger] r.ops.dom().contains(t) && #[trigger] r.ops.dom().contains(u)
            ==> ops_are_apart(r.ops[t], r.ops[u])
    &&& r.pushed == values(r.list).to_multiset().add(r.popped)
}

/// A stack that nobody uses yet.
pub open spec fn race_starts(r: Race) -> bool {
    &&& list_wf(r.list)
    &&& r.ops == Map::<nat, Op>::empty()
    &&& r.pushed == values(r.list).to_multiset()
    &&& r.popped == Multiset::<u32>::empty()
}

/// What a move does to the values on the stack: nothing, or it puts one on top, or it takes the
/// top one off.
pub open spec fn is_stack_step(before: Race, after: Race) -> bool {
    let old_values = values(before.list);
    let new_values = values(after.list);
    ||| {
        &&& new_values == old_values
        &&& after.pushed == before.pushed
        &&& after.popped == before.popped
    }
    ||| exists|value: u32| #[trigger]
        old_values.push(value) == new_values && after.pushed == before.pushed.insert(value)
            && after.popped == before.popped
    ||| {
        &&& old_values.len() > 0
        &&& new_values == old_values.drop_last()
        &&& after.pushed == before.pushed
        &&& after.popped == before.popped.insert(old_values.last())
    }
}

/// A value put on the stack is one more that is on it or was popped.
pub proof fn push_moves_the_balance(on_stack: Seq<u32>, popped: Multiset<u32>, value: u32)
    ensures
        on_stack.push(value).to_multiset().add(popped) == on_stack.to_multiset().add(
            popped,
        ).insert(value),
{
    on_stack.to_multiset_ensures();
    assert(on_stack.push(value).to_multiset().add(popped) =~= on_stack.to_multiset().add(
        popped,
    ).insert(value));
}

/// A value popped moves from the stack to what was popped.
pub proof fn pop_keeps_the_balance(on_stack: Seq<u32>, popped: Multiset<u32>)
    requires
        on_stack.len() > 0,
    ensures
        on_stack.to_multiset().add(popped) == on_stack.drop_last().to_multiset().add(
            popped.insert(on_stack.last()),
        ),
{
    let rest = on_stack.drop_last();
    assert(on_stack =~= rest.push(on_stack.last()));
    rest.to_multiset_ensures();
    assert(on_stack.to_multiset().add(popped) =~= rest.to_multiset().add(
        popped.insert(on_stack.last()),
    ));
}

/// Every move keeps the invariant, and is a step of a stack.
pub proof fn race_inv_is_kept(r: Race, m: Move)
    requires
        race_inv(r),
        can_move(r, m),
    ensures
        race_inv(moved(r, m)),
        is_stack_step(r, moved(r, m)),
{
    let p = moved(r, m);
    let l = r.list;
    match m {
        Move::Push { thread, value, node } => {
            detached_nodes_do_not_matter(l, node, Node { value, next: 0 });
        },
        Move::Pop { thread } => {},
        Move::Step { thread } => {
            null_head_means_empty(l);
            match r.ops[thread] {
                Op::Created { node, value } => {
                    detached_nodes_do_not_matter(l, node, Node { value, next: l.head });
                },
                Op::Linked { node, value, seen } => {
                    pushing_adds_value(l, node);
                    push_moves_the_balance(values(l), r.popped, value);
                    if p.ops[thread] is Finished {
                        assert(values(l).push(value) == values(p.list));
                    }
                },
                Op::Read { head, next } => {
                    if l.head == head {
                        popping_takes_value(l);
                        assert(p.list == popped_node(l));
                        pop_keeps_the_balance(values(l), r.popped);
                    }
                },
                Op::Won { head, value } => {
                    detached_nodes_do_not_matter(l, head, l.nodes[head]);
                },
                _ => {},
            }
        },
        Move::Return { thread } => {},
    }
}

/// The race after a run of moves.
pub open spec fn moved_all(r: Race, moves: Seq<Move>) -> Race
    decreases moves.len(),
{
    if moves.len() == 0 {
        r
    } else {
        moved(moved_all(r, moves.drop_last()), moves.last())
    }
}

/// Whether a run of moves can be made, one after the other.
pub open spec fn can_move_all(r: Race, moves: Seq<Move>) -> bool
    decreases moves.len(),
{
    moves.len() > 0 ==> {
        &&& can_move_all(r, moves.drop_last())
        &&& can_move(moved_all(r, moves.drop_last()), moves.last())
    }
}

/// A stack that nobody uses yet has what holds of a race.
pub proof fn race_inv_holds_at_start(r: Race)
    requires
        race_starts(r),
    ensures
        race_inv(r),
{
    assert(r.pushed =~= values(r.list).to_multiset().add(r.popped));
}

/// What holds of a race holds after every run of moves, however the threads interleave.
pub proof fn race_inv_is_kept_by_all(r: Race, moves: Seq<Move>)
    requires
        race_inv(r),
        can_move_all(r, moves),
    ensures
        race_inv(moved_all(r, moves)),
    decreases moves.len(),
{
    if moves.len() > 0 {
        race_inv_is_kept_by_all(r, moves.drop_last());
        race_inv_is_kept(moved_all(r, moves.drop_last()), moves.last());
    }
}

/// No value is lost and none is popped twice: after every run of moves, each value was pushed
/// as often as it is on the stack or was popped.
pub proof fn no_value_is_lost_or_doubled(r: Race, moves: Seq<Move>, value: u32)
    requires
        race_starts(r),
        can_move_all(r, moves),
    ensures
        ({
            let end = moved_all(r, moves);
            end.pushed.count(value) == values(end.list).to_multiset().count(value)
                + end.popped.count(value)
        }),
{
    race_inv_holds_at_start(r);
    race_inv_is_kept_by_all(r, moves);
}

/// Threads that pop until the stack is empty have popped exactly what was pushed.
pub proof fn drained_stack_gave_all_back(r: Race, moves: Seq<Move>)
    requires
        race_starts(r),
        can_move_all(r, moves),
        moved_all(r, moves).list.head == 0,
    ensures
        moved_all(r, moves).popped == moved_all(r, moves).pushed,
{
    let end = moved_all(r, moves);
    race_inv_holds_at_start(r);
    race_inv_is_kept_by_all(r, moves);
    null_head_means_empty(end.list);
    assert(values(end.list) =~= Seq::<u32>::empty());
    values(end.list).to_multiset_ensures();
    assert(end.popped =~= end.pushed);
}

/// Every node that an operation reads, writes or frees exists at that moment, and a pop returns
/// the value that it took off.
pub proof fn operations_hold_live_nodes(r: Race, thread: nat)
    requires
        race_inv(r),
        r.ops.dom().contains(thread),
    ensures
        match r.ops[thread] {
            Op::Created { node, value } => r.list.nodes.dom().contains(node),
            Op::Linked { node, value, seen } => r.list.nodes.dom().contains(node),
            Op::Begun => true,
            Op::Loaded { head } => r.list.nodes.dom().contains(head),
            Op::Read { head, next } => r.list.nodes.dom().contains(head),
            Op::Won { head, value } => r.list.nodes.dom().contains(head)
                && r.list.nodes[head].value == value,
            Op::Finished { result } => true,
        },
{
}

/// A pop gives up, to return `None`, exactly if it finds nothing on the stack at that moment.
pub proof fn pop_gives_up_only_on_empty(r: Race, thread: nat)
    requires
        race_inv(r),
        r.ops.dom().contains(thread),
        r.ops[thread] is Begun,
    ensures
        moved(r, Move::Step { thread }).ops[thread] is Finished <==> values(r.list).len() == 0,
        moved(r, Move::Step { thread }).ops[thread] is Loaded <==> values(r.list).len() > 0,
{
    null_head_means_empty(r.list);
}

/// The value that a pop that has taken one off will return.
pub open spec fn value_to_return(op: Op) -> Option<u32> {
    match op {
        Op::Won { head, value } => Some(value),
        Op::Finished { result } => result,
        _ => None,
    }
}

/// A pop that has taken a value off returns that value, whatever other threads do meanwhile.
pub proof fn taken_value_is_returned(r: Race, m: Move, thread: nat)
    requires
        race_inv(r),
        can_move(r, m),
        r.ops.dom().contains(thread),
        value_to_return(r.ops[thread]) is Some,
        m != (Move::Return { thread }),
    ensures
        moved(r, m).ops.dom().contains(thread),
        value_to_return(moved(r, m).ops[thread]) == value_to_return(r.ops[thread]),
{
}

/// Whether the operation of thread `t` holds the node at `addr` alone.
pub open spec fn holds_node(r: Race, t: nat, addr: usize) -> bool {
    r.ops.dom().contains(t) && own_node(r.ops[t]) == Some(addr)
}

/// Whether every node is on the stack or held by an operation.
pub open spec fn every_node_is_held(r: Race) -> bool {
    forall|addr: usize| #[trigger]
        is_detached(r.list, addr) ==> exists|t: nat| #[trigger] holds_node(r, t, addr)
}

/// A node that an access leaves off the stack is held by that operation, or was so before and
/// held by another.
proof fn step_lets_go_of_nothing(l: ListView, op: Op, addr: usize)
    requires
        list_wf(l),
        op_is_sound(l, op),
        is_detached(op_stepped(l, op).0, addr),
    ensures
        own_node(op_stepped(l, op).1) == Some(addr) || is_detached(l, addr) && own_node(op) != Some(
            addr,
        ),
{
    let (p, next) = op_stepped(l, op);
    match op {
        Op::Linked { node, value, seen } => {
            if l.head == seen {
                chain_with_another(l.chain, node);
            }
        },
        Op::Read { head, next: n } => {
            if l.head == head && l.chain.contains(addr) && addr != head {
                chain_without_last(l.chain, addr);
            }
        },
        _ => {},
    }
}

/// No move leaks a node.
pub proof fn every_node_stays_held(r: Race, m: Move)
    requires
        race_inv(r),
        every_node_is_held(r),
        can_move(r, m),
    ensures
        every_node_is_held(moved(r, m)),
{
    let p = moved(r, m);
    assert forall|addr: usize| #[trigger] is_detached(p.list, addr) implies exists|t: nat|
        #[trigger] holds_node(p, t, addr) by {
        match m {
            Move::Push { thread, value, node } => {
                if addr == node {
                    assert(holds_node(p, thread, addr));
                } else {
                    assert(is_detached(r.list, addr));
                    let t = choose|t: nat| #[trigger] holds_node(r, t, addr);
                    assert(holds_node(p, t, addr));
                }
            },
            Move::Step { thread } => {
                step_lets_go_of_nothing(r.list, r.ops[thread], addr);
                if own_node(p.ops[thread]) == Some(addr) {
                    assert(holds_node(p, thread, addr));
                } else {
                    let t = choose|t: nat| #[trigger] holds_node(r, t, addr);
                    assert(holds_node(p, t, addr));
                }
            },
            _ => {
                assert(is_detached(r.list, addr));
                let t = choose|t: nat| #[trigger] holds_node(r, t, addr);
                assert(holds_node(p, t, addr));
            },
        }
    }
}

/// No run of moves leaks a node: on a stack that started with no stray nodes, every node is on
/// the stack or held by an operation in progress.
pub proof fn no_node_leaks(r: Race, moves: Seq<Move>)
    requires
        race_starts(r),
        has_no_stray_nodes(r.list),
        can_move_all(r, moves),
    ensures
        every_node_is_held(moved_all(r, moves)),
    decreases moves.len(),
{
    if moves.len() > 0 {
        race_inv_holds_at_start(r);
        race_inv_is_kept_by_all(r, moves.drop_last());
        no_node_leaks(r, moves.drop_last());
        every_node_stays_held(moved_all(r, moves.drop_last()), moves.last());
    }
}

/// Once all operations are over, every node is on the stack, and so the stack can free them all.
pub proof fn idle_stack_has_no_stray_nodes(r: Race)
    requires
        every_node_is_held(r),
        r.ops.dom() == Set::<nat>::empty(),
    ensures
        has_no_stray_nodes(r.list),
{
    assert forall|addr: usize| #[trigger] r.list.nodes.dom().contains(
        addr,
    ) implies r.list.chain.contains(addr) by {
        if is_detached(r.list, addr) {
            let t = choose|t: nat| #[trigger] holds_node(r, t, addr);
            assert(r.ops.dom().contains(t));
        }
    }
}

/// Whether `op` is a push in progress.
pub open spec fn is_pushing(op: Op) -> bool {
    op is Created || op is Linked
}

/// Whether `op` is a pop in progress.
pub open spec fn is_popping(op: Op) -> bool {
    op is Begun || op is Loaded || op is Read || op is Won
}

/// The value that a push in progress is to put on the stack.
pub open spec fn value_to_push(op: Op) -> Option<u32> {
    match op {
        Op::Created { node, value } => Some(value),
        Op::Linked { node, value, seen } => Some(value),
        _ => None,
    }
}

/// From every state of a push in progress: it is over exactly at the moment that its value is put
/// on top, and until then it goes on, with the same value, and changes nothing on the stack.
pub proof fn push_is_over_once_its_value_is_on_top(l: ListView, op: Op)
    requires
        list_wf(l),
        op_is_sound(l, op),
        is_pushing(op),
    ensures
        ({
            let (p, next) = op_stepped(l, op);
            ||| {
                &&& next == Op::Finished { result: None }
                &&& values(p) == values(l).push(value_to_push(op)->0)
            }
            ||| {
                &&& is_pushing(next)
                &&& value_to_push(next) == value_to_push(op)
                &&& own_node(next) == own_node(op)
                &&& values(p) == values(l)
            }
        }),
{
    match op {
        Op::Created { node, value } => {
            detached_nodes_do_not_matter(l, node, Node { value, next: l.head });
        },
        Op::Linked { node, value, seen } => {
            pushing_adds_value(l, node);
        },
        _ => {},
    }
}

/// From every state of a pop in progress: it is over with `None` only if the stack holds no value
/// at that moment, and over with a value only if it took that value off before. It takes a value
/// off only from the top. Otherwise it goes on, and changes nothing on the stack.
pub proof fn pop_is_over_once_it_has_its_answer(l: ListView, op: Op)
    requires
        list_wf(l),
        op_is_sound(l, op),
        is_popping(op),
    ensures
        ({
            let (p, next) = op_stepped(l, op);
            ||| {
                &&& next == Op::Finished { result: None }
                &&& values(l).len() == 0
                &&& p == l
                &&& !(op is Won)
            }
            ||| {
                &&& op is Won
                &&& next == Op::Finished { result: Some(op->Won_value) }
                &&& values(p) == values(l)
                &&& p.nodes == l.nodes.remove(op->Won_head)
            }
            ||| {
                &&& op is Read
                &&& next is Won
                &&& values(l).len() > 0
                &&& next->Won_value == values(l).last()
                &&& values(p) == values(l).drop_last()
                &&& p.nodes == l.nodes
            }
            ||| {
                &&& !(op is Won)
                &&& next is Begun || next is Loaded || next is Read
                &&& p == l
            }
        }),
{
    null_head_means_empty(l);
    match op {
        Op::Read { head, next } => {
            if l.head == head {
                popping_takes_value(l);
                assert(op_stepped(l, op).0 == popped_node(l));
            }
        },
        Op::Won { head, value } => {
            detached_nodes_do_not_matter(l, head, l.nodes[head]);
        },
        _ => {},
    }
}

/// An operation starts over only after a lost race: the head is no longer the one that it had
/// seen. One that is over stays as it is.
pub proof fn operations_retry_only_after_a_lost_race(l: ListView, op: Op)
    ensures
        op matches Op::Created { node, value } ==> op_stepped(l, op).1 == (Op::Linked {
            node,
            value,
            seen: l.head,
        }),
        op matches Op::Linked { node, value, seen } ==> (op_stepped(l, op).1 is Finished <==> l.head
            == seen),
        op is Begun && l.head != 0 ==> op_stepped(l, op).1 == (Op::Loaded { head: l.head }),
        op matches Op::Loaded { head } ==> l.head == head ==> op_stepped(l, op).1 is Read,
        op matches Op::Read { head, next } ==> (op_stepped(l, op).1 is Won <==> l.head == head),
        op is Finished ==> op_stepped(l, op) == (l, op),
{
}

/// An access changes no node but the operation's own.
pub proof fn accesses_touch_own_nodes_alone(l: ListView, op: Op, addr: usize)
    requires
        own_node(op) != Some(addr),
    ensures
        op_stepped(l, op).0.nodes.dom().contains(addr) <==> l.nodes.dom().contains(addr),
        op_stepped(l, op).0.nodes[addr] == l.nodes[addr],
{
}

/// What `n` accesses of an operation that nobody disturbs lead to.
pub open spec fn after_accesses(l: ListView, op: Op, n: nat) -> (ListView, Op)
    decreases n,
{
    if n == 0 {
        (l, op)
    } else {
        let (p, next) = op_stepped(l, op);
        after_accesses(p, next, (n - 1) as nat)
    }
}

/// How many accesses an operation that nobody disturbs has before it.
spec fn accesses_left(l: ListView, op: Op) -> nat {
    match op {
        Op::Created { node, value } => 2,
        Op::Linked { node, value, seen } => if l.head == seen {
            1
        } else {
            3
        },
        Op::Begun => 4,
        Op::Loaded { head } => if l.head == head {
            3
        } else {
            6
        },
        Op::Read { head, next } => if l.head == head {
            2
        } else {
            5
        },
        Op::Won { head, value } => 1,
        Op::Finished { result } => 0,
    }
}

proof fn undisturbed_accesses_run_out(l: ListView, op: Op, n: nat)
    requires
        n >= accesses_left(l, op),
    ensures
        after_accesses(l, op, n).1 is Finished,
    decreases n,
{
    if n > 0 {
        let (p, next) = op_stepped(l, op);
        undisturbed_accesses_run_out(p, next, (n - 1) as nat);
    }
}

/// An operation that nobody disturbs is over after at most six accesses, from whatever state it
/// is in.
pub proof fn undisturbed_operation_finishes(l: ListView, op: Op, n: nat)
    requires
        n >= 6,
    ensures
        after_accesses(l, op, n).1 is Finished,
{
    undisturbed_accesses_run_out(l, op, n);
}

} // verus!
