# samsara

*Endless rebirth. Allocate, mark, sweep, repeat.*

A research-grade garbage collector in verified Rust: mark-region heap,
snapshot-at-the-beginning write barrier, remembered sets, concurrent marking and
ABA-safe stacks, built up in layers from the bump allocator out. Every function of
the library has a contract that Verus proves.

## Layout

| Where | What |
|-------|------|
| `src/arena.rs`, `src/align.rs`, `src/overlay.rs` | Bump arena |
| `src/marker.rs`, `src/reach.rs` | Tri-color marker over `ObjectGraph`, and reachability |
| `src/region.rs` | Mark-region heap with its allocate / mark / sweep cycle |
| `src/barrier.rs`, `src/atomic.rs`, `src/remembered_set.rs` | Write barriers, phase, remembered set |
| `src/concurrent.rs`, `src/satb.rs` | Collector that runs beside mutators, and the snapshot guarantee |
| `src/nodes.rs`, `src/treiber.rs`, `src/treiber_races.rs` | Treiber stack, and what holds under races |
| `src/hazard.rs`, `src/safe_treiber.rs`, `src/safe_races.rs` | Hazard pointers, the ABA-safe stack, and what holds under races |
| `tests/` | Tests that run the library |
| `app/` | The same pieces behind locks and atomics, for real threads |

## Threads

The library works on values with one owner. Where several threads share a value, its
operations are split into steps, one access to shared state each, and the proofs speak
of every order in which threads may take them; for the plain Treiber stack, of every
order in which no node is freed while another pop has it in hand. `app/` takes a lock
for each step, and for a whole operation of the plain stack.

## The tri-color invariant

The mark phase maintains: *no black object references a white object*. The
snapshot-at-the-beginning barrier (Yuasa, 1990) keeps every object that was reachable
when marking started: before a reference is overwritten, its old target is captured.

## Use

```rust
use samsara::{mark, Color, ObjectGraph};

struct MyHeap { /* ... */ }
impl ObjectGraph for MyHeap {
    type Id = u32;
    fn roots(&self) -> Vec<u32> { /* ... */ }
    fn refs_of(&self, id: u32) -> Vec<u32> { /* ... */ }
    fn all_ids(&self) -> Vec<u32> { /* ... */ }
}

let coloring = mark(&heap);
let unreachable: Vec<_> = coloring
    .iter()
    .filter(|(_, c)| **c == Color::White)
    .map(|(id, _)| *id)
    .collect();
```

## Reading

- Dijkstra, Lamport, Martin, Scholten, Steffens - *On-the-Fly Garbage Collection: an Exercise in Cooperation* (1978).
- Yuasa - *Real-time garbage collection on general-purpose machines* (1990).
- Blackburn, McKinley - *Immix: a mark-region garbage collector with space efficiency, fast collection, and mutator performance* (2008).
- Michael - *Hazard pointers: safe memory reclamation for lock-free objects* (2004).
