use samsara::{MarkStack, Phase, WriteBarrier};
use std::collections::{HashMap, HashSet};

/// A small mutable adjacency-list graph used to demonstrate the SATB
/// invariant. Nodes are `u32`s; edges are owned by the source.
struct MutableGraph {
    roots: Vec<u32>,
    edges: HashMap<u32, Vec<u32>>,
}

impl MutableGraph {
    fn new() -> Self {
        Self {
            roots: vec![],
            edges: HashMap::new(),
        }
    }
    fn add_node(&mut self, id: u32) {
        self.edges.entry(id).or_default();
    }
    fn add_root(&mut self, id: u32) {
        self.roots.push(id);
    }
    fn add_edge(&mut self, src: u32, dst: u32) {
        self.edges.entry(src).or_default().push(dst);
    }
    fn replace_edge(&mut self, src: u32, old_dst: u32, new_dst: u32) {
        let entry = self.edges.entry(src).or_default();
        for e in entry.iter_mut() {
            if *e == old_dst {
                *e = new_dst;
                return;
            }
        }
        panic!("replace_edge: {} -> {} not found", src, old_dst);
    }
    fn refs_of(&self, id: u32) -> Vec<u32> {
        self.edges.get(&id).cloned().unwrap_or_default()
    }
}

/// Drain a mark stack against a (possibly mid-mutation) graph. Returns
/// the set of objects that ended up black.
fn drain_marker(stack: &mut MarkStack, graph: &MutableGraph) -> HashSet<u32> {
    let mut black = HashSet::new();
    while let Some(obj) = stack.pop() {
        if !black.insert(obj) {
            continue;
        }
        for child in graph.refs_of(obj) {
            if !black.contains(&child) {
                stack.push(child);
            }
        }
    }
    black
}

#[test]
fn idle_barrier_does_not_capture() {
    let phase = Phase::Idle;
    let mut stack = MarkStack::new();
    let mut barrier = WriteBarrier::new(&phase, &mut stack);
    barrier.pre_write(42);
    assert!(stack.is_empty());
}

#[test]
fn marking_barrier_captures_overwritten_target() {
    let phase = Phase::Marking;
    let mut stack = MarkStack::new();
    let mut barrier = WriteBarrier::new(&phase, &mut stack);
    barrier.pre_write(42);
    assert_eq!(stack.len(), 1);
    assert!(stack.contains(42));
}

#[test]
fn sweeping_barrier_does_not_capture() {
    let phase = Phase::Sweeping;
    let mut stack = MarkStack::new();
    let mut barrier = WriteBarrier::new(&phase, &mut stack);
    barrier.pre_write(42);
    assert!(stack.is_empty());
}

/// The headline correctness demonstration: with SATB, an object
/// reachable from roots at the start of marking remains marked even if
/// the mutator orphans it during marking.
#[test]
fn satb_preserves_object_reachable_at_start_of_marking() {
    // Graph: roots = {A}.  A -> B -> C.  D is a fresh allocation.
    let (a, b, c, d) = (1u32, 2, 3, 4);
    let mut graph = MutableGraph::new();
    for n in [a, b, c, d] {
        graph.add_node(n);
    }
    graph.add_root(a);
    graph.add_edge(a, b);
    graph.add_edge(b, c);

    // Start marking. Push roots.
    let phase = Phase::Marking;
    let mut stack = MarkStack::new();
    for &r in &graph.roots {
        stack.push(r);
    }

    // Marker scans A, exposes B.
    let scanned = stack.pop().unwrap();
    assert_eq!(scanned, a);
    for child in graph.refs_of(scanned) {
        stack.push(child);
    }
    // Stack now: [B]. A is black-equivalent (not on stack any more).
    let black: HashSet<u32> = [a].iter().copied().collect();

    // Mutator: A's edge to B is overwritten with edge to D. SATB fires
    // BEFORE the mutation, capturing B (a second time, harmless).
    {
        let mut barrier = WriteBarrier::new(&phase, &mut stack);
        barrier.pre_write(b);
    }
    graph.replace_edge(a, b, d);
    // Stack now: [B, B]. The duplicate is fine - the marker dedupes.

    // ALSO: a fresh edge from A to D was added; insertion barrier would
    // grey D, but SATB does not. The mutator must arrange for D to be
    // greyed by some other means (e.g. allocation-time dirty bit).
    // For this test, push D explicitly to model that.
    stack.push(d);

    // Continue marking until stack empties.
    let final_black = {
        let pre_existing = black.clone();
        let mut new_black = drain_marker(&mut stack, &graph);
        new_black.extend(pre_existing);
        new_black
    };

    // The whole point: B and C are both black even though the path
    // A -> B was severed mid-marking.
    assert!(final_black.contains(&b), "SATB must preserve B");
    assert!(final_black.contains(&c), "SATB must preserve C");
    assert!(final_black.contains(&d), "freshly-linked D is also marked");
}

/// Without SATB (idle phase => barrier no-ops), the same scenario loses B.
/// This is the negative control that justifies the barrier's existence.
#[test]
fn without_satb_orphaned_object_is_lost() {
    let (a, b, c, d) = (1u32, 2, 3, 4);
    let mut graph = MutableGraph::new();
    for n in [a, b, c, d] {
        graph.add_node(n);
    }
    graph.add_root(a);
    graph.add_edge(a, b);
    graph.add_edge(b, c);

    let phase = Phase::Idle; // barrier is a no-op
    let mut stack = MarkStack::new();
    stack.push(a);
    let _ = stack.pop();
    for child in graph.refs_of(a) {
        stack.push(child);
    }

    // Mutator severs the edge.
    {
        let mut barrier = WriteBarrier::new(&phase, &mut stack);
        barrier.pre_write(b); // no-op
    }
    graph.replace_edge(a, b, d);

    // Continue (B is still on the stack from before mutation in this test
    // setup, so this test models a more racy scenario where the mutation
    // wins). Reset stack to model "marker hasn't seen B yet".
    let mut stack2 = MarkStack::new();
    stack2.push(a);
    // re-scan A under the new graph.
    let _ = stack2.pop();
    for child in graph.refs_of(a) {
        stack2.push(child);
    }
    let black = drain_marker(&mut stack2, &graph);

    assert!(!black.contains(&b), "without SATB, B is lost");
    assert!(!black.contains(&c), "without SATB, C is lost (transitively)");
}

#[test]
fn mark_stack_is_last_in_first_out() {
    let mut stack = MarkStack::default();
    assert_eq!(stack.pop(), None);
    stack.push(7);
    stack.push(8);
    let copy = stack.clone();
    assert_eq!(stack.pop(), Some(8));
    assert_eq!(stack.pop(), Some(7));
    assert_eq!(stack.pop(), None);
    assert_eq!(copy.len(), 2);
    assert!(copy.contains(7));
    assert!(!copy.contains(9));
}

#[test]
fn barrier_captures_in_order() {
    let phase = Phase::Marking;
    let mut stack = MarkStack::new();
    stack.push(1);
    let mut barrier = WriteBarrier::new(&phase, &mut stack);
    barrier.pre_write(2);
    barrier.pre_write(3);
    assert_eq!(stack.pop(), Some(3));
    assert_eq!(stack.pop(), Some(2));
    assert_eq!(stack.pop(), Some(1));
}
