//! samsara - endless rebirth. Allocate, mark, sweep, repeat.
//!
//! A research-grade garbage collector built up in deliberate layers, each with its contracts
//! proved:
//!
//! 1. Bump-allocating arena ([`arena`])
//! 2. Tri-color marker over an abstract object graph ([`marker`])
//! 3. Mark-region heap with per-region states and a sweep cycle ([`region`])
//! 4. Snapshot-at-the-beginning (SATB) write barrier ([`barrier`])
//! 5. Phase cell, barrier and remembered set for many mutators ([`atomic`], [`remembered_set`])
//! 6. Concurrent marking, one shared access at a time ([`concurrent`])
//! 7. Treiber stack ([`treiber`]), hazard-pointer registry ([`hazard`]), and the Treiber stack
//!    that hazard pointers protect ([`safe_treiber`])
//!
//! What the layers guarantee when threads interleave stands in [`satb`], [`treiber_races`] and
//! [`safe_races`]: there every access to shared state is one step, any thread may take the next
//! one, and what holds is proved of every run; for the plain stack, of every run in which no node
//! is freed while another pop has it in hand.

pub mod align;
pub mod arena;
pub mod atomic;
pub mod barrier;
pub mod concurrent;
pub mod hazard;
pub mod marker;
pub mod nodes;
pub mod overlay;
pub mod reach;
pub mod region;
pub mod remembered_set;
pub mod safe_races;
pub mod safe_treiber;
pub mod satb;
pub mod treiber;
pub mod treiber_races;

pub use arena::{Arena, Handle};
pub use atomic::{AtomicPhase, AtomicWriteBarrier};
pub use barrier::{MarkStack, Phase, WriteBarrier};
pub use concurrent::{concurrent_mark, ConcurrentMarker, Point};
pub use hazard::{HazardRegistry, HazardSlot, SlotState, MAX_HAZARDS};
pub use marker::{mark, Color, ObjectGraph};
pub use region::{Region, RegionHandle, RegionHeap, RegionState, REGION_SIZE};
pub use remembered_set::RememberedSet;
pub use safe_treiber::SafeTreiberStack;
pub use treiber::TreiberStack;
