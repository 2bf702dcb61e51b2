use samsara::{Arena, Handle};

#[test]
fn alloc_advances_offset_with_alignment() {
    let mut a = Arena::with_capacity(64);
    let h0 = a.allocate(3).unwrap();
    let h1 = a.allocate(5).unwrap();
    assert_eq!(h0.0, 0);
    assert_eq!(h1.0, 8); // aligned up from 3 to 8
}

#[test]
fn alloc_returns_none_on_oom() {
    let mut a = Arena::with_capacity(16);
    assert!(a.allocate(8).is_some());
    assert!(a.allocate(8).is_some());
    assert!(a.allocate(1).is_none());
}

#[test]
fn arena_write_then_read_round_trips() {
    let mut a = Arena::with_capacity(64);
    let h = a.allocate(4).unwrap();
    a.write(h, &[0xDE, 0xAD, 0xBE, 0xEF]);
    assert_eq!(a.read(h, 4), &[0xDE, 0xAD, 0xBE, 0xEF]);
}

#[test]
fn reset_zeros_offset() {
    let mut a = Arena::with_capacity(64);
    a.allocate(16).unwrap();
    assert_eq!(a.used(), 16);
    a.reset();
    assert_eq!(a.used(), 0);
}

#[test]
fn fresh_arena_is_zeroed() {
    let a = Arena::with_capacity(5);
    assert_eq!(a.capacity(), 5);
    assert_eq!(a.used(), 0);
    assert_eq!(a.read(Handle(0), 5), &[0, 0, 0, 0, 0]);
}

#[test]
fn failed_alloc_changes_nothing() {
    let mut a = Arena::with_capacity(20);
    a.allocate(3).unwrap();
    assert_eq!(a.allocate(13), None);
    assert_eq!(a.allocate(usize::MAX), None);
    assert_eq!(a.used(), 3);
    assert_eq!(a.allocate(12), Some(Handle(8)));
    assert_eq!(a.used(), 20);
}

#[test]
fn writes_to_disjoint_allocations_do_not_interfere() {
    let mut a = Arena::with_capacity(32);
    let x = a.allocate(5).unwrap();
    let y = a.allocate(5).unwrap();
    a.write(x, &[1, 2, 3, 4, 5]);
    a.write(y, &[6, 7, 8, 9, 10]);
    assert_eq!(a.read(x, 5), &[1, 2, 3, 4, 5]);
    assert_eq!(a.read(y, 5), &[6, 7, 8, 9, 10]);
}

#[test]
fn reset_keeps_bytes_and_starts_over() {
    let mut a = Arena::with_capacity(16);
    let h = a.allocate(16).unwrap();
    a.write(h, &[9; 16]);
    assert_eq!(a.allocate(1), None);
    a.reset();
    assert_eq!(a.allocate(16), Some(Handle(0)));
    assert_eq!(a.read(h, 2), &[9, 9]);
}
