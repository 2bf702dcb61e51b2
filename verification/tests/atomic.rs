use samsara::atomic::{decode, encode};
use samsara::{AtomicPhase, AtomicWriteBarrier, Phase, RememberedSet};

#[test]
fn load_store_roundtrip() {
    let mut p = AtomicPhase::new();
    assert_eq!(p.load(), Phase::Idle);
    p.store(Phase::Marking);
    assert_eq!(p.load(), Phase::Marking);
    p.store(Phase::Sweeping);
    assert_eq!(p.load(), Phase::Sweeping);
}

#[test]
fn transition_succeeds_only_on_matching_from() {
    let mut p = AtomicPhase::new();
    assert!(p.transition(Phase::Idle, Phase::Marking));
    assert_eq!(p.load(), Phase::Marking);
    // Wrong from value should refuse.
    assert!(!p.transition(Phase::Idle, Phase::Sweeping));
    assert_eq!(p.load(), Phase::Marking);
    assert!(p.transition(Phase::Marking, Phase::Sweeping));
    assert!(p.transition(Phase::Sweeping, Phase::Idle));
    assert_eq!(p.load(), Phase::Idle);
}

#[test]
fn idle_barrier_is_no_op_under_atomics() {
    let phase = AtomicPhase::new();
    let mut set = RememberedSet::new();
    let mut barrier = AtomicWriteBarrier::new(&phase, &mut set);
    barrier.pre_write(42);
    assert_eq!(set.len(), 0);
}

#[test]
fn marking_barrier_records_atomically() {
    let mut phase = AtomicPhase::new();
    phase.store(Phase::Marking);
    let mut set = RememberedSet::new();
    let mut barrier = AtomicWriteBarrier::new(&phase, &mut set);
    barrier.pre_write(7);
    barrier.pre_write(11);
    assert_eq!(set.len(), 2);
}

#[test]
fn sweeping_barrier_is_no_op_under_atomics() {
    let mut phase = AtomicPhase::default();
    phase.store(Phase::Sweeping);
    let mut set = RememberedSet::new();
    let mut barrier = AtomicWriteBarrier::new(&phase, &mut set);
    barrier.pre_write(42);
    assert!(set.is_empty());
}

#[test]
fn phases_have_distinct_bytes() {
    assert_eq!(encode(Phase::Idle), 0);
    assert_eq!(encode(Phase::Marking), 1);
    assert_eq!(encode(Phase::Sweeping), 2);
    for p in [Phase::Idle, Phase::Marking, Phase::Sweeping] {
        assert_eq!(decode(encode(p)), p);
    }
}

/// Eight mutators take turns; the remembered set collects every write.
#[test]
fn many_writers_one_collector() {
    let mut phase = AtomicPhase::new();
    let mut set = RememberedSet::new();
    phase.store(Phase::Marking);
    let n_threads = 8;
    let writes_per = 100;
    for i in 0..writes_per {
        for thread_id in 0..n_threads {
            let mut barrier = AtomicWriteBarrier::new(&phase, &mut set);
            barrier.pre_write(thread_id * 1000 + i);
        }
    }
    assert_eq!(set.len(), n_threads as usize * writes_per as usize);
}

#[test]
fn writers_under_idle_phase_record_nothing() {
    let phase = AtomicPhase::new(); // starts Idle
    let mut set = RememberedSet::new();
    for i in 0..100 {
        for _ in 0..4 {
            let mut barrier = AtomicWriteBarrier::new(&phase, &mut set);
            barrier.pre_write(i);
        }
    }
    assert_eq!(set.len(), 0, "Idle phase should record nothing");
}
