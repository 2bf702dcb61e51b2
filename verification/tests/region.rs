use samsara::{RegionHandle, RegionHeap, RegionState, REGION_SIZE};

#[test]
fn fresh_heap_has_all_regions_free() {
    let h = RegionHeap::with_regions(4);
    assert_eq!(h.n_regions(), 4);
    assert_eq!(h.n_free(), 4);
}

#[test]
fn alloc_lands_in_first_free_region() {
    let mut h = RegionHeap::with_regions(4);
    let a = h.allocate(64).unwrap();
    assert_eq!(a.region, 0);
    assert_eq!(a.offset, 0);
    let b = h.allocate(64).unwrap();
    assert_eq!(b.region, 0);
    assert_eq!(b.offset, 64);
}

#[test]
fn alloc_spills_when_region_fills() {
    let mut h = RegionHeap::with_regions(2);
    // Fill region 0 completely.
    let mut total = 0;
    while let Some(handle) = h.allocate(1024) {
        assert_eq!(handle.region, 0);
        total += 1024;
        if total >= REGION_SIZE {
            break;
        }
    }
    // Next allocation lands in region 1.
    let next = h.allocate(64).unwrap();
    assert_eq!(next.region, 1);
}

#[test]
fn alloc_returns_none_when_heap_is_full() {
    let mut h = RegionHeap::with_regions(1);
    // Allocate the entire region.
    let big = h.allocate(REGION_SIZE).unwrap();
    let _ = big;
    // Now there's nothing left.
    assert!(h.allocate(8).is_none());
}

#[test]
fn region_write_then_read_round_trips() {
    let mut h = RegionHeap::with_regions(1);
    let a = h.allocate(8).unwrap();
    h.write(a, &[1, 2, 3, 4, 5, 6, 7, 8]);
    assert_eq!(h.read(a, 8), &[1, 2, 3, 4, 5, 6, 7, 8]);
}

#[test]
fn sweep_frees_regions_with_no_live_objects() {
    let mut h = RegionHeap::with_regions(3);
    // Allocate one object in region 0.
    let a = h.allocate(REGION_SIZE - 8).unwrap(); // fills region 0
    let b = h.allocate(64).unwrap(); // forces spill; lands in region 1
    let c = h.allocate(64).unwrap(); // also region 1

    h.pre_mark();
    // Pretend only `c` survived.
    h.mark_live(c);
    let _ = (a, b);

    let freed = h.sweep();
    // region 0 had no marked objects: freed.
    // region 1 had `c` marked: kept.
    // region 2 was untouched: still Free, never re-counted.
    assert_eq!(freed, 1);
    assert_eq!(h.region(0).state(), RegionState::Free);
    assert_ne!(h.region(1).state(), RegionState::Free);
}

#[test]
fn partially_live_region_is_not_compacted() {
    // The defining property of mark-region: live regions stay in place.
    let mut h = RegionHeap::with_regions(2);
    let a = h.allocate(128).unwrap();
    let _b = h.allocate(128).unwrap();
    let _c = h.allocate(128).unwrap();
    let used_before = h.region(a.region as usize).used();

    h.pre_mark();
    h.mark_live(a); // only `a` survives - but region stays
    h.sweep();

    let used_after = h.region(a.region as usize).used();
    assert_eq!(used_before, used_after, "partial region should not compact");
    assert_ne!(h.region(a.region as usize).state(), RegionState::Free);
}

#[test]
fn alloc_larger_than_region_returns_none() {
    let mut h = RegionHeap::with_regions(4);
    assert!(h.allocate(REGION_SIZE + 1).is_none());
}

#[test]
fn full_cycle_reclaims_dead_regions_and_continues_allocating() {
    let mut h = RegionHeap::with_regions(2);
    let a = h.allocate(REGION_SIZE - 8).unwrap();
    let _b = h.allocate(64).unwrap();
    let _c = h.allocate(64).unwrap();

    h.pre_mark();
    h.mark_live(a);
    let freed = h.sweep();
    assert!(freed >= 1);

    // After sweep, allocator should successfully use a freed region.
    let d = h.allocate(64).unwrap();
    // d landed in some region that was previously dead.
    assert_ne!(d.region, a.region);
}

#[test]
fn failed_alloc_fills_the_current_region() {
    let mut h = RegionHeap::with_regions(1);
    h.allocate(REGION_SIZE - 8).unwrap();
    assert_eq!(h.region(0).state(), RegionState::Allocating);
    assert_eq!(h.allocate(64), None);
    assert_eq!(h.region(0).state(), RegionState::Full);
    assert_eq!(h.region(0).used(), REGION_SIZE - 8);
    // Eight bytes are left, but a full region takes nothing until a sweep.
    assert_eq!(h.allocate(8), None);
    assert_eq!(h.region(0).state(), RegionState::Full);
    assert_eq!(h.region(0).used(), REGION_SIZE - 8);
    h.pre_mark();
    assert_eq!(h.sweep(), 1);
    assert_eq!(h.allocate(8), Some(RegionHandle { region: 0, offset: 0 }));
}

#[test]
fn region_left_behind_takes_nothing_until_sweep() {
    let mut h = RegionHeap::with_regions(2);
    h.allocate(REGION_SIZE - 64).unwrap();
    let spilled = h.allocate(REGION_SIZE).unwrap();
    assert_eq!(spilled.region, 1);
    // Region 0 has 64 bytes left, but is full.
    assert_eq!(h.allocate(64), None);
    assert_eq!(h.region(0).state(), RegionState::Full);
    h.pre_mark();
    h.mark_live(spilled);
    assert_eq!(h.sweep(), 1);
    assert_eq!(h.allocate(64), Some(RegionHandle { region: 0, offset: 0 }));
}

#[test]
fn oversized_alloc_leaves_the_heap_alone() {
    let mut h = RegionHeap::with_regions(2);
    h.allocate(100).unwrap();
    assert_eq!(h.allocate(REGION_SIZE + 1), None);
    assert_eq!(h.region(0).state(), RegionState::Allocating);
    assert_eq!(h.n_free(), 1);
    assert_eq!(h.allocate(1), Some(RegionHandle { region: 0, offset: 104 }));
}

#[test]
fn live_counts_follow_the_cycle() {
    let mut h = RegionHeap::with_regions(2);
    let a = h.allocate(8).unwrap();
    let b = h.allocate(8).unwrap();
    h.mark_live(a);
    h.mark_live(b);
    assert_eq!(h.region(0).live_count(), 2);
    h.pre_mark();
    assert_eq!(h.region(0).live_count(), 0);
    h.mark_live(b);
    assert_eq!(h.sweep(), 0);
    assert_eq!(h.region(0).live_count(), 1);
    h.pre_mark();
    assert_eq!(h.sweep(), 1);
    assert_eq!(h.n_free(), 2);
    assert_eq!(h.region(0).used(), 0);
}

#[test]
fn sweep_keeps_bytes_of_live_and_dead_regions() {
    let mut h = RegionHeap::with_regions(2);
    let a = h.allocate(REGION_SIZE).unwrap();
    let b = h.allocate(4).unwrap();
    h.write(a, &[1, 2, 3, 4]);
    h.write(b, &[5, 6, 7, 8]);
    h.pre_mark();
    h.mark_live(b);
    h.sweep();
    assert_eq!(h.read(a, 4), &[1, 2, 3, 4]);
    assert_eq!(h.read(b, 4), &[5, 6, 7, 8]);
}

#[test]
fn writes_to_different_handles_do_not_interfere() {
    let mut h = RegionHeap::with_regions(2);
    let a = h.allocate(3).unwrap();
    let b = h.allocate(3).unwrap();
    let c = h.allocate(REGION_SIZE).unwrap();
    h.write(a, &[1, 1, 1]);
    h.write(b, &[2, 2, 2]);
    h.write(c, &[3, 3, 3]);
    assert_eq!(h.read(a, 3), &[1, 1, 1]);
    assert_eq!(h.read(b, 3), &[2, 2, 2]);
    assert_eq!(h.read(c, 3), &[3, 3, 3]);
}

#[test]
fn full_current_region_is_open_again_after_a_sweep() {
    let mut h = RegionHeap::with_regions(1);
    let a = h.allocate(REGION_SIZE - 64).unwrap();
    assert_eq!(h.allocate(128), None);
    assert_eq!(h.region(0).state(), RegionState::Full);
    assert_eq!(h.allocate(8), None);
    assert_eq!(h.region(0).state(), RegionState::Full);
    // A sweep that finds a survivor keeps the region, and what fits is served again.
    h.pre_mark();
    h.mark_live(a);
    assert_eq!(h.sweep(), 0);
    assert_eq!(h.region(0).state(), RegionState::Full);
    assert_eq!(h.region(0).used(), REGION_SIZE - 64);
    let rest = h.allocate(8).unwrap();
    assert_eq!(rest, RegionHandle { region: 0, offset: (REGION_SIZE - 64) as u32 });
    assert_eq!(h.region(0).state(), RegionState::Allocating);
    // What does not fit turns it full once more.
    assert_eq!(h.allocate(64), None);
    assert_eq!(h.allocate(8), None);
    assert_eq!(h.region(0).state(), RegionState::Full);
}
