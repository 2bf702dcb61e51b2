//! The linked nodes under the two Treiber stacks.
//!
//! A [`NodeList`] is a head pointer and a heap of nodes, each with a value and the address of
//! the node below it. Addresses are numbers; zero is the null pointer, and the address of a
//! node that was freed is handed out again. The methods are the single accesses that a
//! lock-free stack is made of: load the head, write to a node that nobody else knows yet,
//! read from a node, and compare-and-swap the head.

use vstd::prelude::*;

verus! {

/// A value, and the address of the node below.
#[derive(Copy, Clone)]
pub struct Node {
    pub value: u32,
    pub next: usize,
}

pub struct NodeList {
    head: usize,
    /// The node at address `i + 1`, unless it was freed.
    cells: Vec<Option<Node>>,
    /// The freed addresses.
    free: Vec<usize>,
    /// The addresses of the nodes that the head leads to, the head itself last.
    chain: Ghost<Seq<usize>>,
}

/// What a [`NodeList`] holds: the head, the nodes by their addresses, and the addresses that
/// the head leads to, the head itself last.
pub struct ListView {
    pub head: usize,
    pub nodes: Map<usize, Node>,
    pub chain: Seq<usize>,
}

/// The address below the `i`th one of a chain.
pub open spec fn below(chain: Seq<usize>, i: int) -> usize {
    if i > 0 {
        chain[i - 1]
    } else {
        0
    }
}

/// The head leads along distinct nodes that exist, down to null.
pub open spec fn list_wf(l: ListView) -> bool {
    &&& !l.nodes.dom().contains(0)
    &&& l.chain.no_duplicates()
    &&& l.head == below(l.chain, l.chain.len() as int)
    &&& forall|i: int|
        0 <= i < l.chain.len() ==> l.nodes.dom().contains(#[trigger] l.chain[i])
            && l.nodes[l.chain[i]].next == below(l.chain, i)
}

/// The values that the head leads to, the top one last.
pub open spec fn values(l: ListView) -> Seq<u32> {
    l.chain.map_values(|addr: usize| l.nodes[addr].value)
}

/// Whether `addr` is a node that exists and that the head does not lead to.
pub open spec fn is_detached(l: ListView, addr: usize) -> bool {
    l.nodes.dom().contains(addr) && !l.chain.contains(addr)
}

/// The list with a node written.
pub open spec fn with_node(l: ListView, addr: usize, node: Node) -> ListView {
    ListView { nodes: l.nodes.insert(addr, node), ..l }
}

/// The list with the detached node at `addr` put on top.
pub open spec fn pushed_node(l: ListView, addr: usize) -> ListView {
    ListView { head: addr, chain: l.chain.push(addr), ..l }
}

/// The list with its top node taken off. The node itself still exists.
pub open spec fn popped_node(l: ListView) -> ListView {
    ListView {
        head: l.nodes[l.head].next,
        chain: l.chain.drop_last(),
        ..l
    }
}

/// The list without the node at `addr`.
pub open spec fn without_node(l: ListView, addr: usize) -> ListView {
    ListView { nodes: l.nodes.remove(addr), ..l }
}

impl View for NodeList {
    type V = ListView;

    closed spec fn view(&self) -> ListView {
        ListView {
            head: self.head,
            nodes: Map::new(
                |addr: usize| 0 < addr <= self.cells@.len() && self.cells@[addr - 1] is Some,
                |addr: usize| self.cells@[addr - 1]->0,
            ),
            chain: self.chain@,
        }
    }
}

impl NodeList {
    /// What is free is free once, and was a node before.
    pub closed spec fn free_wf(&self) -> bool {
        &&& self.free@.no_duplicates()
        &&& forall|i: int|
            0 <= i < self.free@.len() ==> 0 < #[trigger] self.free@[i] <= self.cells@.len()
                && self.cells@[self.free@[i] - 1] is None
    }

    pub open spec fn wf(&self) -> bool {
        &&& list_wf(self@)
        &&& self.free_wf()
    }

    /// An empty list.
    pub fn new() -> (list: Self)
        ensures
            list.wf(),
            list@ == (ListView { head: 0, nodes: Map::empty(), chain: Seq::empty() }),
    {
        let list = Self {
            head: 0,
            cells: Vec::new(),
            free: Vec::new(),
            chain: Ghost(Seq::empty()),
        };
        assert(list@.nodes =~= Map::empty());
        list
    }

    /// Load the head.
    pub fn head(&self) -> (head: usize)
        ensures
            head == self@.head,
    {
        self.head
    }

    /// Allocates a node. Its address is one that no other node has.
    pub fn create(&mut self, value: u32) -> (addr: usize)
        requires
            old(self).wf(),
        ensures
            final(self).wf(),
            addr != 0,
            !old(self)@.nodes.dom().contains(addr),
            final(self)@ == with_node(old(self)@, addr, (Node { value, next: 0 })),
    {
        let node = Node { value, next: 0 };
        match self.free.pop() {
            Some(addr) => {
                assert(old(self).free@[old(self).free@.len() - 1] == addr);
                self.cells[addr - 1] = Some(node);
                proof {
                    assert(self@.nodes =~= old(self)@.nodes.insert(addr, node));
                    assert forall|i: int| 0 <= i < self.free@.len() implies 0
                        < #[trigger] self.free@[i] <= self.cells@.len()
                        && self.cells@[self.free@[i] - 1] is None by {
                        assert(old(self).free@[i] == self.free@[i]);
                    }
                    assert(list_wf(self@));
                }
                addr
            },
            None => {
                self.cells.push(Some(node));
                let addr: usize = self.cells.len();
                proof {
                    assert(self@.nodes =~= old(self)@.nodes.insert(addr, node));
                    assert(list_wf(self@));
                }
                addr
            },
        }
    }

    /// Writes the link of a node that the head does not lead to.
    pub fn link(&mut self, addr: usize, next: usize)
        requires
            old(self).wf(),
            is_detached(old(self)@, addr),
        ensures
            final(self).wf(),
            final(self)@ == with_node(
                old(self)@,
                addr,
                (Node { next, ..old(self)@.nodes[addr] }),
            ),
    {
        let node = self.read(addr);
        self.cells[addr - 1] = Some(Node { value: node.value, next });
        proof {
            assert(self@.nodes =~= old(self)@.nodes.insert(addr, Node { next, ..node }));
            assert(list_wf(self@));
        }
    }

    /// Reads a node.
    pub fn read(&self, addr: usize) -> (node: Node)
        requires
            self@.nodes.dom().contains(addr),
        ensures
            node == self@.nodes[addr],
    {
        self.cells[addr - 1].unwrap()
    }

    /// Compare-and-swap the head from `seen` to the node at `addr`, which links to it. Returns
    /// whether the head was still `seen`.
    pub fn swap_in(&mut self, seen: usize, addr: usize) -> (swapped: bool)
        requires
            old(self).wf(),
            is_detached(old(self)@, addr),
            old(self)@.nodes[addr].next == seen,
        ensures
            final(self).wf(),
            swapped == (old(self)@.head == seen),
            final(self)@ == (if swapped {
                pushed_node(old(self)@, addr)
            } else {
                old(self)@
            }),
    {
        if self.head == seen {
            self.head = addr;
            self.chain = Ghost(self.chain@.push(addr));
            assert(self@.nodes =~= old(self)@.nodes);
            true
        } else {
            false
        }
    }

    /// Compare-and-swap the head from `seen` to `next`. Returns whether the head was still
    /// `seen`; if it was, `next` is what it links to.
    pub fn swap_out(&mut self, seen: usize, next: usize) -> (swapped: bool)
        requires
            old(self).wf(),
            seen != 0,
            old(self)@.head == seen ==> old(self)@.nodes[seen].next == next,
        ensures
            final(self).wf(),
            swapped == (old(self)@.head == seen),
            final(self)@ == (if swapped {
                popped_node(old(self)@)
            } else {
                old(self)@
            }),
    {
        if self.head == seen {
            proof {
                let chain = self.chain@;
                assert(chain[chain.len() - 1] == seen);
            }
            self.head = next;
            self.chain = Ghost(self.chain@.drop_last());
            assert(self@.nodes =~= old(self)@.nodes);
            true
        } else {
            false
        }
    }

    /// Frees a node that the head does not lead to. Its address can be handed out again.
    pub fn free(&mut self, addr: usize)
        requires
            old(self).wf(),
            is_detached(old(self)@, addr),
        ensures
            final(self).wf(),
            final(self)@ == without_node(old(self)@, addr),
    {
        self.cells[addr - 1] = None;
        self.free.push(addr);
        proof {
            assert(self@.nodes =~= old(self)@.nodes.remove(addr));
            assert(list_wf(self@));
            assert forall|i: int| 0 <= i < self.free@.len() implies 0 < #[trigger] self.free@[i]
                <= self.cells@.len() && self.cells@[self.free@[i] - 1] is None by {
                if i < old(self).free@.len() {
                    assert(old(self).free@[i] == self.free@[i]);
                }
            }
        }
    }
}

/// The empty list is the one whose head is null.
pub proof fn null_head_means_empty(l: ListView)
    requires
        list_wf(l),
    ensures
        l.head == 0 <==> values(l).len() == 0,
        values(l).len() > 0 ==> l.head == l.chain.last() && l.nodes.dom().contains(l.head)
            && values(l).last() == l.nodes[l.head].value,
{
    if l.chain.len() > 0 {
        assert(l.nodes.dom().contains(l.chain[l.chain.len() - 1]));
    }
}

/// A node put on top adds its value to the list.
pub proof fn pushing_adds_value(l: ListView, addr: usize)
    ensures
        values(pushed_node(l, addr)) == values(l).push(l.nodes[addr].value),
{
    assert(values(pushed_node(l, addr)) =~= values(l).push(l.nodes[addr].value));
}

/// The top node taken off takes its value with it.
pub proof fn popping_takes_value(l: ListView)
    requires
        list_wf(l),
        l.head != 0,
    ensures
        list_wf(popped_node(l)),
        values(l).len() > 0,
        values(l).last() == l.nodes[l.head].value,
        values(popped_node(l)) == values(l).drop_last(),
        is_detached(popped_node(l), l.head),
{
    let chain = l.chain;
    assert(chain[chain.len() - 1] == l.head);
    assert(values(popped_node(l)) =~= values(l).drop_last());
}

/// What happens to nodes that the head does not lead to changes no value of the list.
pub proof fn detached_nodes_do_not_matter(l: ListView, addr: usize, node: Node)
    requires
        list_wf(l),
        !l.chain.contains(addr),
    ensures
        values(with_node(l, addr, node)) == values(l),
        values(without_node(l, addr)) == values(l),
        addr != 0 ==> list_wf(with_node(l, addr, node)),
        list_wf(without_node(l, addr)),
{
    assert(values(with_node(l, addr, node)) =~= values(l));
    assert(values(without_node(l, addr)) =~= values(l));
}

/// An address that is the head is on the chain.
pub proof fn head_is_on_chain(l: ListView, addr: usize)
    requires
        list_wf(l),
    ensures
        l.head == addr && addr != 0 ==> l.chain.contains(addr) && l.nodes.dom().contains(addr),
{
    null_head_means_empty(l);
    if l.head == addr && addr != 0 {
        assert(l.chain[l.chain.len() - 1] == addr);
    }
}

/// Without the last one, all other addresses are still there.
pub proof fn chain_without_last(chain: Seq<usize>, addr: usize)
    requires
        chain.len() > 0,
        chain.contains(addr),
        addr != chain.last(),
    ensures
        chain.drop_last().contains(addr),
{
    assert(chain.drop_last()[chain.index_of(addr)] == addr);
}

/// With one more address, all others are still there.
pub proof fn chain_with_another(chain: Seq<usize>, another: usize)
    ensures
        chain.push(another).contains(another),
        forall|addr: usize| chain.contains(addr) ==> #[trigger] chain.push(another).contains(addr),
{
    let longer = chain.push(another);
    assert(longer.last() == another);
    assert forall|addr: usize| chain.contains(addr) implies #[trigger] longer.contains(addr) by {
        assert(longer[chain.index_of(addr)] == addr);
    }
}

/// To write a node, to free one, or to put one on top or take it off leaves every other node as
/// it is, and moves the head in the last two cases only.
pub proof fn node_operations_touch_one_node(l: ListView, addr: usize, node: Node, other: usize)
    ensures
        with_node(l, addr, node).nodes.dom().contains(addr),
        with_node(l, addr, node).nodes[addr] == node,
        with_node(l, addr, node).head == l.head,
        with_node(l, addr, node).chain == l.chain,
        !without_node(l, addr).nodes.dom().contains(addr),
        without_node(l, addr).head == l.head,
        without_node(l, addr).chain == l.chain,
        other != addr ==> {
            &&& with_node(l, addr, node).nodes.dom().contains(other) <==> l.nodes.dom().contains(
                other,
            )
            &&& with_node(l, addr, node).nodes[other] == l.nodes[other]
            &&& without_node(l, addr).nodes.dom().contains(other) <==> l.nodes.dom().contains(other)
            &&& without_node(l, addr).nodes[other] == l.nodes[other]
        },
        pushed_node(l, addr).head == addr,
        pushed_node(l, addr).chain == l.chain.push(addr),
        pushed_node(l, addr).nodes == l.nodes,
        popped_node(l).head == l.nodes[l.head].next,
        popped_node(l).chain == l.chain.drop_last(),
        popped_node(l).nodes == l.nodes,
{
}

/// The list holds one value for each address that the head leads to, in that order.
pub proof fn values_follow_the_chain(l: ListView, i: int)
    ensures
        values(l).len() == l.chain.len(),
        0 <= i < l.chain.len() ==> values(l)[i] == l.nodes[l.chain[i]].value,
{
}

} // verus!
