use samsara::safe_treiber::{StackOp, RETIRE_THRESHOLD};
use samsara::{SafeTreiberStack, MAX_HAZARDS};
use std::collections::HashSet;

/// Takes all accesses that are left.
fn run(s: &mut SafeTreiberStack, mut op: StackOp) -> Option<u32> {
    while !op.is_finished() {
        op = s.step(op);
    }
    op.result()
}

/// Numbers that pick whose turn it is.
struct Turns(u64);

impl Turns {
    fn next(&mut self, n: usize) -> usize {
        self.0 = self
            .0
            .wrapping_mul(6364136223846793005)
            .wrapping_add(1442695040888963407);
        ((self.0 >> 33) as usize) % n
    }
}

#[test]
fn safe_treiber_single_thread_lifo_order() {
    let mut s = SafeTreiberStack::new();
    s.push(1);
    s.push(2);
    s.push(3);
    assert_eq!(s.pop(), Some(3));
    assert_eq!(s.pop(), Some(2));
    assert_eq!(s.pop(), Some(1));
    assert_eq!(s.pop(), None);
}

#[test]
fn drop_drains_retired_queue() {
    let mut s = SafeTreiberStack::new();
    for i in 0..200 {
        s.push(i);
    }
    for _ in 0..200 {
        s.pop();
    }
    s.force_reclaim();
    assert_eq!(s.n_retired(), 0);
    s.drain();
    assert!(s.is_empty());
}

#[test]
fn force_reclaim_frees_unhazarded() {
    let mut s = SafeTreiberStack::new();
    for i in 0..32 {
        s.push(i);
    }
    for _ in 0..32 {
        s.pop();
    }
    assert_eq!(s.n_retired(), 32);
    // Push enough retires to make reclaim do work.
    s.force_reclaim();
    // The retired queue should be empty afterwards (no concurrent hazards).
    assert_eq!(s.n_retired(), 0);
}

/// Eight writers whose accesses alternate; then one reader.
#[test]
fn safe_treiber_many_writers_one_reader_no_loss() {
    let mut s = SafeTreiberStack::new();
    let n_threads = 8;
    let writes_per = 500;
    for i in 0..writes_per {
        let mut ops: Vec<StackOp> = (0..n_threads)
            .map(|t| s.begin_push(t * 10_000 + i))
            .collect();
        while !ops.iter().all(|op| op.is_finished()) {
            ops = ops.into_iter().map(|op| s.step(op)).collect();
        }
    }
    let mut seen: HashSet<u32> = HashSet::new();
    while let Some(v) = s.pop() {
        assert!(seen.insert(v), "duplicate {}", v);
    }
    assert_eq!(seen.len(), n_threads as usize * writes_per as usize);
}

/// Four writers, then four readers that take turns at random.
#[test]
fn safe_treiber_concurrent_push_and_pop_drain_to_empty() {
    let mut s = SafeTreiberStack::new();
    let n_threads: u32 = 4;
    let writes_per: u32 = 500;
    let total: u32 = n_threads * writes_per;
    for t in 0..n_threads {
        for i in 0..writes_per {
            s.push(t * 1000 + i);
        }
    }
    let mut turns = Turns(1);
    let mut popped = 0;
    let mut readers: Vec<Option<StackOp>> = (0..n_threads).map(|_| s.begin_pop()).collect();
    while readers.iter().any(|op| op.is_some()) {
        let t = turns.next(readers.len());
        if let Some(op) = readers[t].take() {
            let op = s.step(op);
            if op.is_finished() {
                if op.result().is_some() {
                    popped += 1;
                    readers[t] = s.begin_pop();
                }
            } else {
                readers[t] = Some(op);
            }
        }
    }
    assert_eq!(popped, total);
    assert!(s.is_empty());
}

/// Four threads that each push, and pop after every other push, with their accesses mixed at
/// random. Addresses are reused all the time; no value may come out twice.
#[test]
fn interleaved_high_contention_no_duplicates() {
    for seed in 0..8u64 {
        let mut s = SafeTreiberStack::new();
        let n_threads = 4u32;
        let ops_per = 1000u32;
        let mut turns = Turns(seed);
        let mut all_popped: Vec<u32> = vec![];
        // For each thread: how many pushes it has begun, and what it is doing.
        let mut begun = vec![0u32; n_threads as usize];
        let mut ops: Vec<Option<StackOp>> = (0..n_threads).map(|_| None).collect();
        let mut popping = vec![false; n_threads as usize];
        let mut left = n_threads;
        while left > 0 {
            let t = turns.next(n_threads as usize);
            match ops[t].take() {
                Some(op) => {
                    let op = s.step(op);
                    if !op.is_finished() {
                        ops[t] = Some(op);
                        continue;
                    }
                    if popping[t] {
                        popping[t] = false;
                        if let Some(v) = op.result() {
                            all_popped.push(v);
                        }
                    } else if (begun[t] - 1) % 2 == 0 {
                        popping[t] = true;
                        ops[t] = s.begin_pop();
                        continue;
                    }
                    if begun[t] == ops_per {
                        left -= 1;
                    }
                }
                None => {
                    if begun[t] < ops_per {
                        ops[t] = Some(s.begin_push(t as u32 * 100_000 + begun[t]));
                        begun[t] += 1;
                    }
                }
            }
        }
        let mut seen: HashSet<u32> = HashSet::new();
        for v in &all_popped {
            assert!(seen.insert(*v), "duplicate {}", v);
        }
        while let Some(v) = s.pop() {
            assert!(seen.insert(v));
        }
        assert_eq!(seen.len(), (n_threads * ops_per) as usize);
    }
}

#[test]
fn default_safe_stack_is_empty() {
    let mut s = SafeTreiberStack::default();
    assert!(s.is_empty());
    assert_eq!(s.n_retired(), 0);
    s.push(4);
    assert!(!s.is_empty());
    assert_eq!(s.pop(), Some(4));
    assert!(s.is_empty());
}

#[test]
fn queue_is_reclaimed_past_the_threshold() {
    assert_eq!(RETIRE_THRESHOLD, 64);
    let mut s = SafeTreiberStack::new();
    for i in 0..65 {
        s.push(i);
    }
    for n in 1..65 {
        s.pop();
        assert_eq!(s.n_retired(), n);
    }
    s.pop();
    assert_eq!(s.n_retired(), 0);
}

/// A node that a slow pop has verified outlives its retirement, until the pop lets go of it.
#[test]
fn verified_node_is_not_reclaimed() {
    let mut s = SafeTreiberStack::new();
    s.push(1);
    s.push(2);
    let slow = s.begin_pop().unwrap();
    let slow = s.step(slow);
    let slow = s.step(slow);
    let slow = s.step(slow);
    assert!(matches!(slow, StackOp::Verified { .. }));
    assert_eq!(s.pop(), Some(2));
    s.force_reclaim();
    assert_eq!(s.n_retired(), 1);
    // It reads the retired node, loses the race, and pops what is on top now.
    assert_eq!(run(&mut s, slow), Some(1));
    s.force_reclaim();
    assert_eq!(s.n_retired(), 0);
}

/// Address reuse: while a pop holds the head A that links to B, others pop A and B and push a
/// new node. Its address cannot be A, so the pop does not swap in B, which is gone.
#[test]
fn address_does_not_come_back_under_a_pop() {
    let mut s = SafeTreiberStack::new();
    s.push(10);
    s.push(20);
    let slow = s.begin_pop().unwrap();
    let slow = s.step(slow);
    let slow = s.step(slow);
    let slow = s.step(slow);
    let slow = s.step(slow);
    let held = match slow {
        StackOp::Read { head, .. } => head,
        _ => panic!("the pop has not read the link"),
    };
    assert_eq!(s.pop(), Some(20));
    assert_eq!(s.pop(), Some(10));
    s.force_reclaim();
    assert_eq!(s.n_retired(), 1);
    match s.begin_push(30) {
        StackOp::Created { node, value } => {
            assert_ne!(node, held);
            run(&mut s, StackOp::Created { node, value });
        }
        _ => panic!("a push starts with its node"),
    }
    assert_eq!(run(&mut s, slow), Some(30));
    assert!(s.is_empty());
}

/// A head that changes between the load and the protection is not used.
#[test]
fn pop_verifies_after_it_protects() {
    let mut s = SafeTreiberStack::new();
    s.push(1);
    let p = s.begin_pop().unwrap();
    let p = s.step(p);
    s.push(2);
    let p = s.step(p);
    assert!(matches!(p, StackOp::Protected { .. }));
    let p = s.step(p);
    assert!(matches!(p, StackOp::Begun { .. }));
    assert_eq!(run(&mut s, p), Some(2));
    assert_eq!(s.pop(), Some(1));
}

/// While a reclamation holds the lock, nobody retires and no second one starts.
#[test]
fn reclamation_holds_the_lock() {
    let mut s = SafeTreiberStack::new();
    s.push(1);
    let mut p = s.begin_pop().unwrap();
    while !matches!(p, StackOp::Retiring { .. }) {
        p = s.step(p);
    }
    let r = s.step(StackOp::Locking);
    assert!(matches!(r, StackOp::Scanning { .. }));
    let p = s.step(p);
    assert!(matches!(p, StackOp::Retiring { .. }));
    let second = s.step(StackOp::Locking);
    assert!(matches!(second, StackOp::Locking));
    assert_eq!(run(&mut s, r), None);
    assert_eq!(run(&mut s, p), Some(1));
    assert_eq!(s.n_retired(), 1);
    assert_eq!(run(&mut s, second), None);
    assert_eq!(s.n_retired(), 0);
}

#[test]
fn pop_without_a_slot_does_not_begin() {
    let mut s = SafeTreiberStack::new();
    let mut held = vec![];
    for _ in 0..MAX_HAZARDS {
        held.push(s.begin_pop().unwrap());
    }
    assert!(s.begin_pop().is_none());
    assert_eq!(run(&mut s, held.pop().unwrap()), None);
    assert!(s.begin_pop().is_some());
}

#[test]
fn drain_empties_stack_and_queue() {
    let mut s = SafeTreiberStack::new();
    for i in 0..10 {
        s.push(i);
    }
    for _ in 0..4 {
        s.pop();
    }
    assert_eq!(s.n_retired(), 4);
    s.drain();
    assert!(s.is_empty());
    assert_eq!(s.n_retired(), 0);
    s.push(7);
    assert_eq!(s.pop(), Some(7));
}
