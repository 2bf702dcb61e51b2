use samsara::{mark, Color, ObjectGraph};
use std::cell::RefCell;

/// Hand-drawn graph for tests.
///
/// ```text
///   roots: {0, 1}
///   0 -> 2 -> 3
///   1 -> 3
///   4 (orphan, unreachable)
///   5 -> 6  (both unreachable)
/// ```
struct G;

impl ObjectGraph for G {
    type Id = u32;
    fn roots(&self) -> Vec<u32> {
        vec![0, 1]
    }
    fn refs_of(&self, id: u32) -> Vec<u32> {
        match id {
            0 => vec![2],
            1 => vec![3],
            2 => vec![3],
            5 => vec![6],
            _ => vec![],
        }
    }
    fn all_ids(&self) -> Vec<u32> {
        (0..=6).collect()
    }
}

#[test]
fn reachable_objects_end_up_black() {
    let c = mark(&G);
    for id in [0u32, 1, 2, 3] {
        assert_eq!(c[&id], Color::Black, "expected {} black", id);
    }
}

#[test]
fn unreachable_objects_stay_white() {
    let c = mark(&G);
    for id in [4u32, 5, 6] {
        assert_eq!(c[&id], Color::White, "expected {} white", id);
    }
}

#[test]
fn no_grey_objects_remain_after_marking() {
    let c = mark(&G);
    assert!(c.values().all(|color| *color != Color::Grey));
}

#[test]
fn tri_color_invariant_holds() {
    // No black object references a white object.
    let c = mark(&G);
    for (&id, &color) in &c {
        if color == Color::Black {
            for child in G.refs_of(id) {
                assert_ne!(
                    c[&child],
                    Color::White,
                    "black {} -> white {} violates the tri-color invariant",
                    id,
                    child
                );
            }
        }
    }
}

struct Cycle;

impl ObjectGraph for Cycle {
    type Id = u32;
    fn roots(&self) -> Vec<u32> {
        vec![0]
    }
    fn refs_of(&self, id: u32) -> Vec<u32> {
        match id {
            0 => vec![1],
            1 => vec![2],
            2 => vec![0], // cycle back
            _ => vec![],
        }
    }
    fn all_ids(&self) -> Vec<u32> {
        vec![0, 1, 2]
    }
}

#[test]
fn cycles_terminate() {
    let c = mark(&Cycle);
    assert!(c.values().all(|color| *color == Color::Black));
}

/// Refers to an object that it does not list.
struct Unlisted;

impl ObjectGraph for Unlisted {
    type Id = u8;
    fn roots(&self) -> Vec<u8> {
        vec![7, 7]
    }
    fn refs_of(&self, id: u8) -> Vec<u8> {
        if id == 7 {
            vec![9, 9]
        } else {
            vec![]
        }
    }
    fn all_ids(&self) -> Vec<u8> {
        vec![7, 8]
    }
}

#[test]
fn reachable_objects_are_colored_though_unlisted() {
    let c = mark(&Unlisted);
    assert_eq!(c.len(), 3);
    assert_eq!(c[&7], Color::Black);
    assert_eq!(c[&8], Color::White);
    assert_eq!(c[&9], Color::Black);
}

/// 0 -> 1, 1, 2 and 1 -> 2, with 3 -> 0 out of reach; counts the scans.
struct Counted {
    scans: RefCell<Vec<u32>>,
}

impl ObjectGraph for Counted {
    type Id = u32;
    fn roots(&self) -> Vec<u32> {
        vec![0, 0]
    }
    fn refs_of(&self, id: u32) -> Vec<u32> {
        self.scans.borrow_mut().push(id);
        match id {
            0 => vec![1, 1, 2],
            1 => vec![2],
            3 => vec![0],
            _ => vec![],
        }
    }
    fn all_ids(&self) -> Vec<u32> {
        vec![0, 1, 2, 3]
    }
}

#[test]
fn each_reachable_object_is_scanned_once() {
    let g = Counted {
        scans: RefCell::new(vec![]),
    };
    let c = mark(&g);
    assert_eq!(*g.scans.borrow(), vec![0, 1, 2]);
    assert_eq!(c[&3], Color::White);
    assert_eq!(c.len(), 4);
}
