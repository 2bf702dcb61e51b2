use samsara::RememberedSet;

#[test]
fn record_then_drain() {
    let mut s = RememberedSet::new();
    s.record(1);
    s.record(2);
    s.record(3);
    let drained = s.drain();
    assert_eq!(drained, vec![1, 2, 3]);
    assert_eq!(s.len(), 0);
}

#[test]
fn drain_returns_then_clears() {
    let mut s = RememberedSet::new();
    s.record(42);
    assert_eq!(s.drain(), vec![42]);
    assert!(s.is_empty());
    // Subsequent records still work after drain.
    s.record(99);
    assert_eq!(s.drain(), vec![99]);
}

#[test]
fn draining_an_empty_set_gives_nothing() {
    let mut s = RememberedSet::default();
    assert_eq!(s.drain(), Vec::<u32>::new());
    assert!(s.is_empty());
}

/// Sixteen writers take turns; every record arrives, once.
#[test]
fn concurrent_records_all_arrive() {
    let mut s = RememberedSet::new();
    let n_threads: u32 = 16;
    let writes_per: u32 = 200;
    for i in 0..writes_per {
        for t in 0..n_threads {
            s.record(t * 1000 + i);
        }
    }
    let drained = s.drain();
    assert_eq!(drained.len(), n_threads as usize * writes_per as usize);
    // Every (t, i) pair shows up exactly once.
    let mut sorted = drained.clone();
    sorted.sort_unstable();
    sorted.dedup();
    assert_eq!(sorted.len(), drained.len(), "no duplicate records expected");
}
