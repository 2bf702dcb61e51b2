//! Treiber lock-free stack (Treiber, IBM Research, 1986).
//!
//! The simplest non-trivial lock-free data structure. The stack is a
//! head pointer; nodes are heap-allocated with a `next` pointer. `push` and
//! `pop` retry on CAS failure until they win the race.
//!
//! ```text
//!   push:
//!     1. allocate Node { value, next = head.load() }
//!     2. CAS head from old to new; on failure, retry from step 1
//!
//!   pop:
//!     1. head = head.load();  if null, return None
//!     2. next = (*head).next
//!     3. CAS head from old to next; on failure, retry from step 1
//! ```
//!
//! ## A note on ABA
//!
//! This stack is intentionally minimal: it does not protect
//! against the ABA problem, where a popped node could be reallocated to the
//! same address before another thread completes its CAS, and the CAS would
//! erroneously succeed. For a production-grade lock-free stack you want
//! hazard pointers (Michael 2004), as
//! [`SafeTreiberStack`](crate::SafeTreiberStack) has them.
//!
//! An operation is a sequence of accesses to the head and the nodes, and other
//! threads run between any two of them. So an operation in progress is a value,
//! a [`TreiberOp`], and [`TreiberStack::step`] takes its next access.
//! [`push`](TreiberStack::push) and [`pop`](TreiberStack::pop) take all of them
//! at once. What holds when threads interleave stands in
//! [`treiber_races`](crate::treiber_races).

use crate::nodes::NodeList;
#[allow(unused_imports)]
use crate::nodes::{
    detached_nodes_do_not_matter, is_detached, list_wf, null_head_means_empty, popped_node,
    popping_takes_value, pushed_node, pushing_adds_value, values, with_node, without_node,
    ListView, Node,
};
use vstd::prelude::*;

verus! {

/// LIFO stack of `u32` values.
pub struct TreiberStack {
    list: NodeList,
}

impl View for TreiberStack {
    type V = ListView;

    /// The head and the nodes.
    closed spec fn view(&self) -> ListView {
        self.list@
    }
}

/// An operation in progress.
pub enum TreiberOp {
    /// A push that has its node.
    Created { node: usize, value: u32 },
    /// A push whose node links to the head that it has seen.
    Linked { node: usize, value: u32, seen: usize },
    /// A pop that starts, or starts over.
    Begun,
    /// A pop that has seen this head.
    Loaded { head: usize },
    /// A pop that has read what that head links to.
    Read { head: usize, next: usize },
    /// A pop that has taken this node off, and this value with it, and has yet to free it.
    Won { head: usize, taken: Ghost<u32> },
    /// An operation that is over; a pop returns the value.
    Finished { result: Option<u32> },
}

/// What a [`TreiberOp`] holds.
pub enum Op {
    Created { node: usize, value: u32 },
    Linked { node: usize, value: u32, seen: usize },
    Begun,
    Loaded { head: usize },
    Read { head: usize, next: usize },
    Won { head: usize, value: u32 },
    Finished { result: Option<u32> },
}

impl View for TreiberOp {
    type V = Op;

    open spec fn view(&self) -> Op {
        match *self {
            TreiberOp::Created { node, value } => Op::Created { node, value },
            TreiberOp::Linked { node, value, seen } => Op::Linked { node, value, seen },
            TreiberOp::Begun => Op::Begun,
            TreiberOp::Loaded { head } => Op::Loaded { head },
            TreiberOp::Read { head, next } => Op::Read { head, next },
            TreiberOp::Won { head, taken } => Op::Won { head, value: taken@ },
            TreiberOp::Finished { result } => Op::Finished { result },
        }
    }
}

/// What holds of an operation in progress: the nodes that it holds exist and are as it has seen
/// them.
pub open spec fn op_is_sound(l: ListView, op: Op) -> bool {
    match op {
        Op::Created { node, value } => is_detached(l, node) && l.nodes[node].value == value,
        Op::Linked { node, value, seen } => is_detached(l, node) && l.nodes[node] == (Node {
            value,
            next: seen,
        }),
        Op::Begun => true,
        Op::Loaded { head } => l.nodes.dom().contains(head),
        Op::Read { head, next } => l.nodes.dom().contains(head) && l.nodes[head].next == next,
        Op::Won { head, value } => is_detached(l, head) && l.nodes[head].value == value,
        Op::Finished { result } => true,
    }
}

/// What the next access of an operation does.
pub open spec fn op_stepped(l: ListView, op: Op) -> (ListView, Op) {
    match op {
        Op::Created { node, value } => (
            with_node(l, node, Node { value, next: l.head }),
            Op::Linked { node, value, seen: l.head },
        ),
        Op::Linked { node, value, seen } => if l.head == seen {
            (pushed_node(l, node), Op::Finished { result: None })
        } else {
            (l, Op::Created { node, value })
        },
        Op::Begun => if l.head == 0 {
            (l, Op::Finished { result: None })
        } else {
            (l, Op::Loaded { head: l.head })
        },
        Op::Loaded { head } => (l, Op::Read { head, next: l.nodes[head].next }),
        Op::Read { head, next } => if l.head == head {
            (
                ListView { head: next, chain: l.chain.drop_last(), ..l },
                Op::Won { head, value: l.nodes[head].value },
            )
        } else {
            (l, Op::Begun)
        },
        Op::Won { head, value } => (
            without_node(l, head),
            Op::Finished { result: Some(l.nodes[head].value) },
        ),
        Op::Finished { result } => (l, op),
    }
}

/// Whether every node that exists is on the stack.
pub open spec fn has_no_stray_nodes(l: ListView) -> bool {
    forall|addr: usize| #[trigger] l.nodes.dom().contains(addr) ==> l.chain.contains(addr)
}

/// The list after its top node was taken off and freed, if there is one.
pub open spec fn top_freed(l: ListView) -> ListView {
    if l.head == 0 {
        l
    } else {
        without_node(popped_node(l), l.head)
    }
}

/// The top node can be freed.
proof fn freeing_top_takes_value(l: ListView)
    requires
        list_wf(l),
        l.head != 0,
    ensures
        list_wf(top_freed(l)),
        values(l).len() > 0,
        values(l).last() == l.nodes[l.head].value,
        values(top_freed(l)) == values(l).drop_last(),
        has_no_stray_nodes(l) ==> has_no_stray_nodes(top_freed(l)),
{
    let t = top_freed(l);
    popping_takes_value(l);
    detached_nodes_do_not_matter(popped_node(l), l.head, l.nodes[l.head]);
    if has_no_stray_nodes(l) {
        assert forall|addr: usize| #[trigger] t.nodes.dom().contains(
            addr,
        ) implies t.chain.contains(addr) by {
            assert(l.nodes.dom().contains(addr));
            assert(t.chain[l.chain.index_of(addr)] == addr);
        }
    }
}

impl TreiberOp {
    /// Whether the operation is over.
    pub fn is_finished(&self) -> (finished: bool)
        ensures
            finished == (self@ is Finished),
    {
        match self {
            TreiberOp::Finished { result } => true,
            _ => false,
        }
    }

    /// What the operation returns; `None` if it is not over, or not a pop, or found the stack
    /// empty.
    pub fn result(&self) -> (value: Option<u32>)
        ensures
            value == (match self@ {
                Op::Finished { result } => result,
                _ => None,
            }),
    {
        match self {
            TreiberOp::Finished { result } => *result,
            _ => None,
        }
    }
}

impl Default for TreiberStack {
    fn default() -> (stack: Self)
        ensures
            stack.wf(),
            stack@ == (ListView { head: 0, nodes: Map::empty(), chain: Seq::empty() }),
            values(stack@) == Seq::<u32>::empty(),
    {
        Self::new()
    }
}

impl TreiberStack {
    /// The list of nodes is well formed, in what callers do not see of it too.
    pub closed spec fn nodes_wf(&self) -> bool {
        self.list.wf()
    }

    pub open spec fn wf(&self) -> bool {
        &&& self.nodes_wf()
        &&& list_wf(self@)
    }

    /// An empty stack.
    pub fn new() -> (stack: Self)
        ensures
            stack.wf(),
            stack@ == (ListView { head: 0, nodes: Map::empty(), chain: Seq::empty() }),
            values(stack@) == Seq::<u32>::empty(),
    {
        let stack = Self { list: NodeList::new() };
        assert(values(stack@) =~= Seq::<u32>::empty());
        stack
    }

    /// Puts `value` on top.
    pub fn push(&mut self, value: u32)
        requires
            old(self).wf(),
        ensures
            final(self).wf(),
            values(final(self)@) == values(old(self)@).push(value),
            has_no_stray_nodes(old(self)@) ==> has_no_stray_nodes(final(self)@),
    {
        let ghost start = self@;
        let mut op = self.begin_push(value);
        let ghost new = op@->Created_node;
        proof {
            detached_nodes_do_not_matter(start, new, Node { value, next: 0 });
        }
        while !op.is_finished()
            invariant
                self.wf(),
                op_is_sound(self@, op@),
                self@.nodes.dom() == start.nodes.dom().insert(new),
                match op@ {
                    Op::Created { node, value: v } => node == new && v == value && self@.chain
                        == start.chain && values(self@) == values(start),
                    Op::Linked { node, value: v, seen } => node == new && v == value && seen
                        == self@.head && self@.chain == start.chain && values(self@) == values(
                        start,
                    ),
                    Op::Finished { result } => self@.chain == start.chain.push(new) && values(self@)
                        == values(start).push(value),
                    _ => false,
                },
            decreases
                    match op@ {
                        Op::Created { node, value } => 2nat,
                        Op::Linked { node, value, seen } => 1nat,
                        _ => 0nat,
                    },
        {
            proof {
                match op@ {
                    Op::Created { node, value: v } => {
                        detached_nodes_do_not_matter(self@, node, Node { value, next: self@.head });
                        assert(self@.nodes.insert(node, Node { value, next: self@.head }).dom()
                            =~= start.nodes.dom().insert(new));
                    },
                    Op::Linked { node, value: v, seen } => {
                        pushing_adds_value(self@, node);
                    },
                    _ => {},
                }
            }
            op = self.step(op);
        }
        proof {
            if has_no_stray_nodes(start) {
                assert forall|addr: usize| #[trigger] self@.nodes.dom().contains(
                    addr,
                ) implies self@.chain.contains(addr) by {
                    if addr == new {
                        assert(self@.chain.last() == new);
                    } else {
                        assert(start.nodes.dom().contains(addr));
                        assert(self@.chain[start.chain.index_of(addr)] == addr);
                    }
                }
            }
        }
    }

    /// Takes the top value off, or returns `None` if the stack is empty. The node is freed.
    pub fn pop(&mut self) -> (value: Option<u32>)
        requires
            old(self).wf(),
        ensures
            final(self).wf(),
            final(self)@ == top_freed(old(self)@),
            match value {
                Some(value) => {
                    let before = values(old(self)@);
                    &&& before.len() > 0
                    &&& value == before.last()
                    &&& values(final(self)@) == before.drop_last()
                },
                None => values(old(self)@).len() == 0 && final(self)@ == old(self)@,
            },
            has_no_stray_nodes(old(self)@) ==> has_no_stray_nodes(final(self)@),
    {
        let ghost start = self@;
        proof {
            null_head_means_empty(start);
            if start.head != 0 {
                freeing_top_takes_value(start);
            }
        }
        let mut op = self.begin_pop();
        while !op.is_finished()
            invariant
                self.wf(),
                op_is_sound(self@, op@),
                list_wf(start),
                match op@ {
                    Op::Begun => self@ == start,
                    Op::Loaded { head } => self@ == start && head == start.head && head != 0,
                    Op::Read { head, next } => self@ == start && head == start.head && head != 0,
                    Op::Won { head, value } => self@ == popped_node(start) && head == start.head
                        && head != 0,
                    Op::Finished { result } => self@ == top_freed(start) && result == (if start.head
                        == 0 {
                        None
                    } else {
                        Some(start.nodes[start.head].value)
                    }),
                    _ => false,
                },
            decreases
                    match op@ {
                        Op::Begun => 4nat,
                        Op::Loaded { head } => 3nat,
                        Op::Read { head, next } => 2nat,
                        Op::Won { head, value } => 1nat,
                        _ => 0nat,
                    },
        {
            op = self.step(op);
        }
        op.result()
    }

    /// Whether there is nothing on the stack.
    pub fn is_empty(&self) -> (empty: bool)
        requires
            self.wf(),
        ensures
            empty == (values(self@).len() == 0),
    {
        proof {
            null_head_means_empty(self@);
        }
        self.list.head() == 0
    }

    /// Pops until the stack is empty, so that every node on it is freed.
    pub fn drain(&mut self)
        requires
            old(self).wf(),
        ensures
            final(self).wf(),
            values(final(self)@) == Seq::<u32>::empty(),
            has_no_stray_nodes(old(self)@) ==> final(self)@.nodes == Map::<usize, Node>::empty(),
    {
        loop
            invariant
                self.wf(),
                has_no_stray_nodes(old(self)@) ==> has_no_stray_nodes(self@),
            ensures
                values(self@).len() == 0,
            decreases values(self@).len(),
        {
            let ghost before = self@;
            match self.pop() {
                Some(value) => {},
                None => {
                    proof {
                        null_head_means_empty(before);
                    }
                    break;
                },
            }
        }
        assert(values(self@) =~= Seq::<u32>::empty());
        proof {
            assert(self@.chain.len() == values(self@).len());
            if has_no_stray_nodes(self@) {
                assert(self@.nodes =~= Map::<usize, Node>::empty());
            }
        }
    }

    /// Start to push `value`.
    pub fn begin_push(&mut self, value: u32) -> (op: TreiberOp)
        requires
            old(self).wf(),
        ensures
            final(self).wf(),
            op_is_sound(final(self)@, op@),
            op matches TreiberOp::Created { node, value: v } && v == value && node != 0 && !old(
                self,
            )@.nodes.dom().contains(node) && final(self)@ == with_node(
                old(self)@,
                node,
                (Node { value, next: 0 }),
            ),
    {
        let node: usize = self.list.create(value);
        TreiberOp::Created { node, value }
    }

    /// Start to pop.
    pub fn begin_pop(&self) -> (op: TreiberOp)
        ensures
            op@ == Op::Begun,
    {
        TreiberOp::Begun
    }

    /// Take the next access of an operation.
    pub fn step(&mut self, op: TreiberOp) -> (next: TreiberOp)
        requires
            old(self).wf(),
            op_is_sound(old(self)@, op@),
        ensures
            final(self).wf(),
            (final(self)@, next@) == op_stepped(old(self)@, op@),
            op_is_sound(final(self)@, next@),
    {
        proof {
            null_head_means_empty(self@);
        }
        match op {
            TreiberOp::Created { node, value } => {
                let seen: usize = self.list.head();
                self.list.link(node, seen);
                TreiberOp::Linked { node, value, seen }
            },
            TreiberOp::Linked { node, value, seen } => {
                if self.list.swap_in(seen, node) {
                    TreiberOp::Finished { result: None }
                } else {
                    TreiberOp::Created { node, value }
                }
            },
            TreiberOp::Begun => {
                let head: usize = self.list.head();
                if head == 0 {
                    TreiberOp::Finished { result: None }
                } else {
                    TreiberOp::Loaded { head }
                }
            },
            TreiberOp::Loaded { head } => {
                let next: usize = self.list.read(head).next;
                TreiberOp::Read { head, next }
            },
            TreiberOp::Read { head, next } => {
                let ghost value = self@.nodes[head].value;
                if self.list.swap_out(head, next) {
                    proof {
                        popping_takes_value(old(self)@);
                    }
                    TreiberOp::Won { head, taken: Ghost(value) }
                } else {
                    TreiberOp::Begun
                }
            },
            TreiberOp::Won { head, taken } => {
                let value: u32 = self.list.read(head).value;
                self.list.free(head);
                TreiberOp::Finished { result: Some(value) }
            },
            TreiberOp::Finished { result } => TreiberOp::Finished { result },
        }
    }
}

} // verus!
