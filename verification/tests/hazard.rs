use samsara::{HazardRegistry, MAX_HAZARDS};

#[test]
fn acquire_and_release() {
    let mut r = HazardRegistry::new();
    let s1 = r.acquire().unwrap();
    let s2 = r.acquire().unwrap();
    assert_ne!(s1.idx(), s2.idx());
    s1.release(&mut r);
    let s3 = r.acquire().unwrap();
    // Re-acquired the freshly-released slot index.
    assert!(s3.idx() == 0 || s3.idx() == 2 || s3.idx() == 1);
}

#[test]
fn protect_and_is_hazarded() {
    let mut r = HazardRegistry::new();
    let s = r.acquire().unwrap();
    let ptr: usize = 42;
    assert!(!r.is_hazarded(ptr));
    s.protect(&mut r, ptr);
    assert!(r.is_hazarded(ptr));
    s.clear(&mut r);
    assert!(!r.is_hazarded(ptr));
}

#[test]
fn drop_clears_protection() {
    let mut r = HazardRegistry::new();
    let ptr: usize = 123;
    {
        let s = r.acquire().unwrap();
        s.protect(&mut r, ptr);
        assert!(r.is_hazarded(ptr));
        s.release(&mut r);
    }
    assert!(!r.is_hazarded(ptr));
}

#[test]
fn snapshot_returns_published_pointers() {
    let mut r = HazardRegistry::new();
    let s1 = r.acquire().unwrap();
    let s2 = r.acquire().unwrap();
    let p1: usize = 1;
    let p2: usize = 2;
    s1.protect(&mut r, p1);
    s2.protect(&mut r, p2);
    let snap = r.snapshot();
    assert_eq!(snap.len(), 2);
    assert!(snap.contains(&p1));
    assert!(snap.contains(&p2));
}

#[test]
fn slots_exhausted_returns_none() {
    let mut r = HazardRegistry::new();
    let mut held = Vec::with_capacity(MAX_HAZARDS);
    for _ in 0..MAX_HAZARDS {
        held.push(r.acquire().unwrap());
    }
    assert!(r.acquire().is_none());
}

/// Eight readers, each with a slot of its own.
#[test]
fn many_threads_protect_distinct_slots() {
    let mut r = HazardRegistry::new();
    let n_threads = 8;
    let mut held = vec![];
    for t in 0..n_threads {
        let s = r.acquire().expect("slot available");
        s.protect(&mut r, 42 + t);
        held.push(s);
    }
    let mut sorted = vec![];
    for (t, s) in held.iter().enumerate() {
        assert!(r.is_hazarded(42 + t));
        sorted.push(s.idx());
    }
    sorted.sort_unstable();
    sorted.dedup();
    assert_eq!(sorted.len(), n_threads, "every thread got a distinct slot");
}

#[test]
fn slots_are_handed_out_in_order() {
    let mut r = HazardRegistry::default();
    let s0 = r.acquire().unwrap();
    let s1 = r.acquire().unwrap();
    let s2 = r.acquire().unwrap();
    assert_eq!((s0.idx(), s1.idx(), s2.idx()), (0, 1, 2));
    s1.release(&mut r);
    assert_eq!(r.acquire().unwrap().idx(), 1);
    assert_eq!(r.acquire().unwrap().idx(), 3);
}

#[test]
fn released_slot_can_be_acquired_when_all_are_held() {
    let mut r = HazardRegistry::new();
    let first = r.acquire().unwrap();
    while r.acquire().is_some() {}
    first.release(&mut r);
    assert_eq!(r.acquire().map(|s| s.idx()), Some(0));
    assert!(r.acquire().is_none());
}

#[test]
fn snapshot_keeps_slot_order_and_skips_null() {
    let mut r = HazardRegistry::new();
    let s0 = r.acquire().unwrap();
    let s1 = r.acquire().unwrap();
    let s2 = r.acquire().unwrap();
    s2.protect(&mut r, 7);
    s0.protect(&mut r, 9);
    assert_eq!(r.snapshot(), vec![9, 7]);
    // Null can be published; a snapshot does not list it.
    assert!(!r.is_hazarded(0));
    s1.protect(&mut r, 0);
    assert!(r.is_hazarded(0));
    assert_eq!(r.snapshot(), vec![9, 7]);
    s1.clear(&mut r);
    assert!(!r.is_hazarded(0));
}

#[test]
fn protection_by_another_slot_lasts() {
    let mut r = HazardRegistry::new();
    let s0 = r.acquire().unwrap();
    let s1 = r.acquire().unwrap();
    s0.protect(&mut r, 5);
    s1.protect(&mut r, 5);
    s0.release(&mut r);
    assert!(r.is_hazarded(5));
    s1.protect(&mut r, 6);
    assert!(!r.is_hazarded(5));
    assert!(r.is_hazarded(6));
}

#[test]
fn published_at_reads_one_slot() {
    let mut r = HazardRegistry::new();
    assert_eq!(r.published_at(0), None);
    let s = r.acquire().unwrap();
    assert_eq!(r.published_at(0), None);
    s.protect(&mut r, 11);
    assert_eq!(r.published_at(0), Some(11));
    assert_eq!(r.published_at(1), None);
}

#[test]
fn idle_slot_hazards_nothing() {
    let mut r = HazardRegistry::new();
    assert!(!r.is_hazarded(0));
    let s = r.acquire().unwrap();
    assert!(!r.is_hazarded(0));
    s.protect(&mut r, 3);
    s.clear(&mut r);
    assert!(!r.is_hazarded(0));
    assert!(!r.is_hazarded(3));
}
