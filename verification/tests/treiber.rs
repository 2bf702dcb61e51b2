use samsara::nodes::NodeList;
use samsara::treiber::TreiberOp;
use samsara::TreiberStack;
use std::collections::HashSet;

#[test]
fn treiber_single_thread_lifo_order() {
    let mut s = TreiberStack::new();
    s.push(1);
    s.push(2);
    s.push(3);
    assert_eq!(s.pop(), Some(3));
    assert_eq!(s.pop(), Some(2));
    assert_eq!(s.pop(), Some(1));
    assert_eq!(s.pop(), None);
}

#[test]
fn pop_on_empty_returns_none() {
    let mut s = TreiberStack::new();
    assert!(s.is_empty());
    assert_eq!(s.pop(), None);
}

#[test]
fn drop_drains_remaining_nodes() {
    let mut s = TreiberStack::new();
    for i in 0..1000 {
        s.push(i);
    }
    s.drain();
    assert!(s.is_empty());
    drop(s);
}

/// Eight writers whose accesses alternate; then one reader.
#[test]
fn treiber_many_writers_one_reader_no_loss() {
    let mut s = TreiberStack::new();
    let n_threads = 8;
    let writes_per = 500;
    for i in 0..writes_per {
        let mut ops: Vec<TreiberOp> = (0..n_threads)
            .map(|t| s.begin_push(t * 10_000 + i))
            .collect();
        while !ops.iter().all(|op| op.is_finished()) {
            ops = ops.into_iter().map(|op| s.step(op)).collect();
        }
    }
    let mut seen: HashSet<u32> = HashSet::new();
    while let Some(v) = s.pop() {
        assert!(seen.insert(v), "duplicate value popped: {}", v);
    }
    assert_eq!(seen.len(), n_threads as usize * writes_per as usize);
}

#[test]
fn default_stack_is_empty() {
    let mut s = TreiberStack::default();
    assert!(s.is_empty());
    s.push(5);
    assert!(!s.is_empty());
    assert_eq!(s.pop(), Some(5));
    assert!(s.is_empty());
}

/// A push whose compare-and-swap loses starts over and lands on top of the winner.
#[test]
fn losing_push_retries() {
    let mut s = TreiberStack::new();
    let a = s.begin_push(1);
    let a = s.step(a);
    s.push(2);
    let a = s.step(a);
    assert!(matches!(a, TreiberOp::Created { value: 1, .. }));
    let a = s.step(a);
    let a = s.step(a);
    assert!(a.is_finished());
    assert_eq!(a.result(), None);
    assert_eq!(s.pop(), Some(1));
    assert_eq!(s.pop(), Some(2));
    assert_eq!(s.pop(), None);
}

/// A pop whose compare-and-swap loses to a push starts over.
#[test]
fn losing_pop_retries() {
    let mut s = TreiberStack::new();
    s.push(1);
    let p = s.begin_pop();
    let p = s.step(p);
    let p = s.step(p);
    s.push(2);
    let p = s.step(p);
    assert!(matches!(p, TreiberOp::Begun));
    let p = s.step(p);
    let p = s.step(p);
    let p = s.step(p);
    assert!(!p.is_finished());
    let p = s.step(p);
    assert_eq!(p.result(), Some(2));
    assert_eq!(s.pop(), Some(1));
}

#[test]
fn pop_of_an_empty_stack_finishes_at_once() {
    let mut s = TreiberStack::new();
    let p = s.begin_pop();
    let p = s.step(p);
    assert!(p.is_finished());
    assert_eq!(p.result(), None);
}

#[test]
fn freed_addresses_come_back() {
    let mut list = NodeList::new();
    assert_eq!(list.head(), 0);
    let a = list.create(1);
    let b = list.create(2);
    assert_ne!(a, b);
    list.free(a);
    assert_eq!(list.create(3), a);
    assert_eq!(list.read(a).value, 3);
    assert_eq!(list.read(b).value, 2);
}

#[test]
fn compare_and_swap_needs_the_head_that_was_seen() {
    let mut list = NodeList::new();
    let a = list.create(1);
    list.link(a, 0);
    assert!(list.swap_in(0, a));
    assert_eq!(list.head(), a);
    let b = list.create(2);
    list.link(b, 0);
    assert!(!list.swap_in(0, b));
    list.link(b, a);
    assert!(list.swap_in(a, b));
    assert!(!list.swap_out(a, 0));
    assert!(list.swap_out(b, a));
    assert_eq!(list.head(), a);
}
