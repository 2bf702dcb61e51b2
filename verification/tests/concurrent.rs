use samsara::concurrent::concurrent_mark;
use samsara::{
    AtomicPhase, AtomicWriteBarrier, ConcurrentMarker, MarkStack, ObjectGraph, Phase, Point,
    RememberedSet,
};
use std::cell::RefCell;
use std::collections::HashMap;
use std::collections::HashSet;
use std::time::{Duration, Instant};

/// 1 -> 2 -> 3;  4 -> 5;  4 and 5 are unreachable from the roots.
struct StaticGraph;

impl ObjectGraph for StaticGraph {
    type Id = u32;
    fn roots(&self) -> Vec<u32> {
        vec![1]
    }
    fn refs_of(&self, id: u32) -> Vec<u32> {
        match id {
            1 => vec![2],
            2 => vec![3],
            4 => vec![5],
            _ => vec![],
        }
    }
    fn all_ids(&self) -> Vec<u32> {
        vec![1, 2, 3, 4, 5]
    }
}

fn fresh_state() -> (StaticGraph, MarkStack, RememberedSet, AtomicPhase) {
    (
        StaticGraph,
        MarkStack::new(),
        RememberedSet::new(),
        AtomicPhase::new(),
    )
}

/// Runs the collector until it finds nothing to do.
fn run_to_pause<G: ObjectGraph<Id = u32>>(
    marker: &mut ConcurrentMarker,
    graph: &G,
    stack: &mut MarkStack,
    remembered: &mut RememberedSet,
    phase: &AtomicPhase,
) {
    while marker.at() != Point::Pause {
        marker.step(graph, stack, remembered, phase);
    }
}

/// Runs the collector to its end and returns the black set.
fn run_to_end<G: ObjectGraph<Id = u32>>(
    mut marker: ConcurrentMarker,
    graph: &G,
    stack: &mut MarkStack,
    remembered: &mut RememberedSet,
    phase: &AtomicPhase,
) -> HashSet<u32> {
    while marker.at() != Point::Done {
        marker.step(graph, stack, remembered, phase);
    }
    marker.finish()
}

#[test]
fn concurrent_marker_drains_reachable_set() {
    let (graph, mut stack, mut remembered, mut phase) = fresh_state();

    // Push roots, transition to Marking, start the collector.
    phase.store(Phase::Marking);
    for r in graph.roots() {
        stack.push(r);
    }
    let mut marker = ConcurrentMarker::new();
    run_to_pause(&mut marker, &graph, &mut stack, &mut remembered, &phase);

    // Mutator does no captures; just signals end-of-marking.
    phase.store(Phase::Idle);

    let black = run_to_end(marker, &graph, &mut stack, &mut remembered, &phase);
    assert!(black.contains(&1));
    assert!(black.contains(&2));
    assert!(black.contains(&3));
    // 4 and 5 unreachable.
    assert!(!black.contains(&4));
    assert!(!black.contains(&5));
}

#[test]
fn concurrent_marker_picks_up_satb_captures_during_marking() {
    // The capture may come before any step of the collector.
    for steps in 0..20 {
        let (graph, mut stack, mut remembered, mut phase) = fresh_state();
        phase.store(Phase::Marking);
        for r in graph.roots() {
            stack.push(r);
        }
        let mut marker = ConcurrentMarker::new();
        for _ in 0..steps {
            marker.step(&graph, &mut stack, &mut remembered, &phase);
        }

        // Mutator: capture object 4 (as if its reference were being overwritten
        // somewhere). This pulls 4 into the live set, and 5 transitively.
        let mut barrier = AtomicWriteBarrier::new(&phase, &mut remembered);
        barrier.pre_write(4);
        phase.store(Phase::Idle);

        let black = run_to_end(marker, &graph, &mut stack, &mut remembered, &phase);
        assert!(black.contains(&1));
        assert!(black.contains(&2));
        assert!(black.contains(&3));
        assert!(black.contains(&4), "SATB-captured 4 must be marked");
        assert!(black.contains(&5), "5 must be reached transitively from 4");
    }
}

#[test]
fn concurrent_marker_terminates_quickly_with_no_work() {
    let (graph, mut stack, mut remembered, mut phase) = fresh_state();
    phase.store(Phase::Marking);
    // No roots pushed.
    phase.store(Phase::Idle);

    let started = Instant::now();
    let black = concurrent_mark(&graph, &mut stack, &mut remembered, &phase);
    assert!(black.is_empty());
    assert!(started.elapsed() < Duration::from_millis(200));
}

#[test]
fn concurrent_marker_handles_many_captures_from_busy_mutator() {
    let (graph, mut stack, mut remembered, mut phase) = fresh_state();
    phase.store(Phase::Marking);
    stack.push(1);
    let mut marker = ConcurrentMarker::new();

    // Mutator captures the same id many times in quick succession.
    for _ in 0..1000 {
        let mut barrier = AtomicWriteBarrier::new(&phase, &mut remembered);
        barrier.pre_write(4);
        marker.step(&graph, &mut stack, &mut remembered, &phase);
    }
    phase.store(Phase::Idle);

    let black = run_to_end(marker, &graph, &mut stack, &mut remembered, &phase);
    // Even with thousands of duplicate captures, marking is correct: the
    // black set is reachable + captured, with no double-counting issues.
    assert!(black.contains(&4));
    assert!(black.contains(&5));
}

#[test]
fn settled_marking_reaches_stack_and_remembered_set() {
    let (graph, mut stack, mut remembered, phase) = fresh_state();
    stack.push(2);
    remembered.record(4);
    let black = concurrent_mark(&graph, &mut stack, &mut remembered, &phase);
    let mut ids: Vec<u32> = black.into_iter().collect();
    ids.sort_unstable();
    assert_eq!(ids, vec![2, 3, 4, 5]);
    assert!(stack.is_empty());
    assert!(remembered.is_empty());
}

/// A graph whose edges the mutator overwrites while the collector marks.
struct MutableGraph {
    edges: RefCell<HashMap<u32, Vec<u32>>>,
}

impl ObjectGraph for MutableGraph {
    type Id = u32;
    fn roots(&self) -> Vec<u32> {
        vec![1]
    }
    fn refs_of(&self, id: u32) -> Vec<u32> {
        self.edges.borrow().get(&id).cloned().unwrap_or_default()
    }
    fn all_ids(&self) -> Vec<u32> {
        vec![1, 2, 3, 4]
    }
}

/// 1 -> 2 -> 3. At whatever step of the collector the mutator severs 1 -> 2, both 2 and 3 end
/// up black.
#[test]
fn snapshot_survives_an_overwrite_at_any_step() {
    for steps in 0..30 {
        let graph = MutableGraph {
            edges: RefCell::new(HashMap::from([(1, vec![2]), (2, vec![3])])),
        };
        let mut stack = MarkStack::new();
        let mut remembered = RememberedSet::new();
        let mut phase = AtomicPhase::new();
        assert!(phase.transition(Phase::Idle, Phase::Marking));
        for r in graph.roots() {
            stack.push(r);
        }
        let mut marker = ConcurrentMarker::new();
        for _ in 0..steps {
            marker.step(&graph, &mut stack, &mut remembered, &phase);
        }
        AtomicWriteBarrier::new(&phase, &mut remembered).pre_write(2);
        graph.edges.borrow_mut().insert(1, vec![4]);
        assert!(phase.transition(Phase::Marking, Phase::Sweeping));
        let black = run_to_end(marker, &graph, &mut stack, &mut remembered, &phase);
        assert!(black.contains(&1));
        assert!(black.contains(&2));
        assert!(black.contains(&3));
    }
}

#[test]
fn collector_takes_one_access_per_step() {
    let (graph, mut stack, mut remembered, mut phase) = fresh_state();
    phase.store(Phase::Marking);
    remembered.record(2);
    let mut marker = ConcurrentMarker::new();
    assert_eq!(marker.at(), Point::Drain);
    marker.drain(&mut remembered);
    assert!(remembered.is_empty());
    assert_eq!(marker.at(), Point::Flush);
    marker.flush(&mut stack);
    assert_eq!(stack.len(), 1);
    assert_eq!(marker.at(), Point::Pop);
    marker.pop(&mut stack);
    assert_eq!(marker.at(), Point::Scan(2));
    marker.scan(graph.refs_of(2));
    assert_eq!(marker.at(), Point::Push);
    marker.push(&mut stack);
    assert!(stack.contains(3));
    assert_eq!(marker.at(), Point::Drain);
    run_to_pause(&mut marker, &graph, &mut stack, &mut remembered, &phase);
    marker.resume();
    assert_eq!(marker.at(), Point::Drain);
    marker.drain(&mut remembered);
    marker.pop(&mut stack);
    assert_eq!(marker.at(), Point::Check);
    phase.store(Phase::Sweeping);
    marker.check(phase.load());
    assert_eq!(marker.at(), Point::FinalDrain);
    remembered.record(1);
    marker.final_drain(&mut remembered);
    assert_eq!(marker.at(), Point::FinalFlush);
    marker.final_flush(&mut stack);
    assert_eq!(marker.at(), Point::Drain);
    let black = run_to_end(marker, &graph, &mut stack, &mut remembered, &phase);
    assert_eq!(black.len(), 3);
}

/// A ring of three objects that counts how often each is scanned.
struct CountingGraph {
    scans: RefCell<HashMap<u32, usize>>,
}

impl ObjectGraph for CountingGraph {
    type Id = u32;
    fn roots(&self) -> Vec<u32> {
        vec![0]
    }
    fn refs_of(&self, id: u32) -> Vec<u32> {
        *self.scans.borrow_mut().entry(id).or_insert(0) += 1;
        vec![(id + 1) % 3, (id + 2) % 3]
    }
    fn all_ids(&self) -> Vec<u32> {
        vec![0, 1, 2]
    }
}

#[test]
fn captured_objects_are_scanned_once() {
    let graph = CountingGraph {
        scans: RefCell::new(HashMap::new()),
    };
    let mut stack = MarkStack::new();
    let mut remembered = RememberedSet::new();
    let mut phase = AtomicPhase::new();
    phase.store(Phase::Marking);
    stack.push(0);
    let mut marker = ConcurrentMarker::new();
    for i in 0..100 {
        AtomicWriteBarrier::new(&phase, &mut remembered).pre_write(i % 3);
        marker.step(&graph, &mut stack, &mut remembered, &phase);
    }
    phase.store(Phase::Idle);
    let black = run_to_end(marker, &graph, &mut stack, &mut remembered, &phase);
    assert_eq!(black.len(), 3);
    assert!(graph.scans.borrow().values().all(|n| *n == 1));
    assert_eq!(graph.scans.borrow().len(), 3);
}

/// At whatever step 4 is recorded, the black set is what the root and 4 reach, no less and no
/// more.
#[test]
fn recorded_id_joins_the_black_set() {
    for steps in 0..20 {
        let (graph, mut stack, mut remembered, mut phase) = fresh_state();
        phase.store(Phase::Marking);
        stack.push(2);
        let mut marker = ConcurrentMarker::new();
        for _ in 0..steps {
            marker.step(&graph, &mut stack, &mut remembered, &phase);
        }
        AtomicWriteBarrier::new(&phase, &mut remembered).pre_write(4);
        phase.store(Phase::Sweeping);
        let black = run_to_end(marker, &graph, &mut stack, &mut remembered, &phase);
        let mut ids: Vec<u32> = black.into_iter().collect();
        ids.sort_unstable();
        assert_eq!(ids, vec![2, 3, 4, 5]);
        assert!(stack.is_empty());
        assert!(remembered.is_empty());
    }
}
