//! Mark-region heap (Blackburn-McKinley 2008, Immix-shape).
//!
//! The heap is an array of fixed-size **regions**. Allocation walks regions
//! looking for one with space; freed regions go back to the pool. Each
//! region carries:
//!
//! - a state machine (`Free`, `Allocating`, `Full`)
//! - a bump pointer for in-region allocation
//! - a live-object count, recomputed each mark phase
//!
//! After a [`mark`](crate::mark) phase, the user calls
//! [`RegionHeap::pre_mark`] / [`RegionHeap::mark_live`] / [`RegionHeap::sweep`]
//! to drive the collector cycle:
//!
//! ```text
//! pre_mark   ->   reset live counts to 0
//! mark_live  ->   for each reachable handle, bump its region's live count
//! sweep      ->   regions with live_count == 0 -> reset to Free
//! ```
//!
//! Regions with at least one live object stay in place - the whole point of
//! mark-*region* (versus mark-*sweep*) is that you don't need to rescan
//! object headers; you just decide per-region whether to keep it.

#[allow(unused_imports)]
use crate::align::{align_up, align_up_is_least_multiple};
use crate::align::round_up;
#[allow(unused_imports)]
use crate::overlay::{overlay, overlay_keeps_the_rest, overlay_reads_back};
use vstd::prelude::*;

verus! {

/// Region size: 32 KiB. Same scale as Immix's chunk size; small enough that
/// dead regions are reclaimed promptly, large enough that bump-allocation
/// dominates over region-search overhead.
pub const REGION_SIZE: usize = 32 * 1024;

#[derive(Copy, Clone, Debug, PartialEq, Eq, Structural)]
pub enum RegionState {
    /// No outstanding allocations; bump pointer at zero. Eligible for reuse.
    Free,
    /// Currently being allocated into. The heap's `current` pointer references
    /// at most one such region.
    Allocating,
    /// Bump pointer hit the end. No more allocations until sweep.
    Full,
}

pub struct Region {
    bytes: Box<[u8; REGION_SIZE]>,
    offset: usize,
    state: RegionState,
    /// Set to zero by [`RegionHeap::pre_mark`]; bumped by
    /// [`RegionHeap::mark_live`]; consulted by [`RegionHeap::sweep`].
    live_count: u32,
}

/// What a [`Region`] holds.
pub struct RegionView {
    pub bytes: Seq<u8>,
    pub offset: nat,
    pub state: RegionState,
    pub live_count: nat,
}

impl View for Region {
    type V = RegionView;

    closed spec fn view(&self) -> RegionView {
        RegionView {
            bytes: self.bytes@,
            offset: self.offset as nat,
            state: self.state,
            live_count: self.live_count as nat,
        }
    }
}

/// A region's bump pointer stays within it, and stands at zero while it is free.
pub open spec fn region_wf(r: RegionView) -> bool {
    &&& r.bytes.len() == REGION_SIZE
    &&& r.offset <= REGION_SIZE
    &&& r.live_count <= u32::MAX
    &&& r.state == RegionState::Free ==> r.offset == 0
}

/// A region that nothing was ever allocated in.
pub open spec fn fresh_region() -> RegionView {
    RegionView {
        bytes: Seq::new(REGION_SIZE as nat, |i: int| 0u8),
        offset: 0,
        state: RegionState::Free,
        live_count: 0,
    }
}

/// Whether `size` more bytes fit behind the bump pointer, once it is aligned.
pub open spec fn region_fits(r: RegionView, size: nat) -> bool {
    align_up(r.offset) + size <= REGION_SIZE
}

/// The region after an allocation of `size` bytes that fits.
pub open spec fn bumped(r: RegionView, size: nat) -> RegionView {
    RegionView { offset: align_up(r.offset) + size, state: RegionState::Allocating, ..r }
}

/// The region after an allocation that ran past the end.
pub open spec fn filled(r: RegionView) -> RegionView {
    RegionView { state: RegionState::Full, ..r }
}

/// The region given back to the pool. Its bytes stay as they were.
pub open spec fn cleared(r: RegionView) -> RegionView {
    RegionView { offset: 0, state: RegionState::Free, live_count: 0, ..r }
}

impl Region {
    fn new() -> (region: Self)
        ensures
            region@ == fresh_region(),
    {
        let region = Self {
            bytes: Box::new([0u8; REGION_SIZE]),
            offset: 0,
            state: RegionState::Free,
            live_count: 0,
        };
        assert(region@.bytes =~= fresh_region().bytes);
        region
    }

    pub fn state(&self) -> (state: RegionState)
        ensures
            state == self@.state,
    {
        self.state
    }

    /// How many bytes lie below the bump pointer.
    pub fn used(&self) -> (used: usize)
        ensures
            used == self@.offset,
    {
        self.offset
    }

    /// How many survivors the mark phase has counted here.
    pub fn live_count(&self) -> (count: u32)
        ensures
            count == self@.live_count,
    {
        self.live_count
    }

    /// Bumps the pointer past `size` aligned bytes and returns where they start. A request
    /// that does not fit turns the region `Full`.
    fn try_alloc(&mut self, size: usize) -> (start: Option<usize>)
        requires
            region_wf(old(self)@),
        ensures
            match start {
                Some(start) => region_fits(old(self)@, size as nat) && start == align_up(
                    old(self)@.offset,
                ) && final(self)@ == bumped(old(self)@, size as nat),
                None => !region_fits(old(self)@, size as nat) && final(self)@ == (if align_up(
                    old(self)@.offset,
                ) + size > usize::MAX {
                    old(self)@
                } else {
                    filled(old(self)@)
                }),
            },
    {
        let aligned: usize = round_up(self.offset);
        let end: usize = match aligned.checked_add(size) {
            Some(end) => end,
            None => return None,
        };
        if end > REGION_SIZE {
            self.state = RegionState::Full;
            return None;
        }
        self.offset = end;
        self.state = RegionState::Allocating;
        Some(aligned)
    }

    /// Gives the region back to the pool.
    fn reset(&mut self)
        ensures
            final(self)@ == cleared(old(self)@),
    {
        self.offset = 0;
        self.state = RegionState::Free;
        self.live_count = 0;
    }
}

/// Where an allocation lies: the index of its region, and its byte offset there.
#[derive(Copy, Clone, Debug, PartialEq, Eq, Hash, Structural)]
pub struct RegionHandle {
    pub region: u32,
    pub offset: u32,
}

pub struct RegionHeap {
    regions: Vec<Region>,
    current: Option<usize>,
    /// Whether the current region has turned full since the last sweep.
    closed: bool,
}

/// What a [`RegionHeap`] holds: its regions, the index of the one that is allocated into, and
/// whether that one has turned full since the last sweep.
pub struct HeapView {
    pub regions: Seq<RegionView>,
    pub current: Option<nat>,
    pub closed: bool,
}

impl View for RegionHeap {
    type V = HeapView;

    closed spec fn view(&self) -> HeapView {
        HeapView {
            regions: self.regions@.map_values(|r: Region| r@),
            current: match self.current {
                Some(i) => Some(i as nat),
                None => None,
            },
            closed: self.closed,
        }
    }
}

/// Every region is well formed, the current one exists and is not free, no other one is being
/// allocated into, and what has turned full is full.
pub open spec fn heap_wf(h: HeapView) -> bool {
    &&& forall|i: int| 0 <= i < h.regions.len() ==> region_wf(#[trigger] h.regions[i])
    &&& h.current matches Some(c) ==> c < h.regions.len() && h.regions[c as int].state
        != RegionState::Free
    &&& forall|i: int|
        0 <= i < h.regions.len() && (#[trigger] h.regions[i]).state == RegionState::Allocating
            ==> h.current == Some(i as nat)
    &&& h.closed ==> h.current is Some && h.regions[h.current->0 as int].state == RegionState::Full
}

pub open spec fn is_free(r: RegionView) -> bool {
    r.state == RegionState::Free
}

/// How many of `regions` are free.
pub open spec fn free_count(regions: Seq<RegionView>) -> nat {
    regions.filter(|r: RegionView| is_free(r)).len()
}

/// The index of the first free region, from `from` on; the number of regions if there is
/// none.
pub open spec fn first_free(regions: Seq<RegionView>, from: nat) -> nat
    decreases regions.len() - from,
{
    if from >= regions.len() {
        regions.len()
    } else if is_free(regions[from as int]) {
        from
    } else {
        first_free(regions, from + 1)
    }
}

/// The handle of an allocation at byte `at` of region `i`: the low 32 bits of each.
pub open spec fn region_handle(i: nat, at: nat) -> RegionHandle {
    RegionHandle { region: (i % 0x1_0000_0000) as u32, offset: (at % 0x1_0000_0000) as u32 }
}

/// Whether the current region, if there is one, has room for `size` bytes and has not turned
/// full since the last sweep.
pub open spec fn current_fits(h: HeapView, size: nat) -> bool {
    &&& !h.closed
    &&& h.current matches Some(c)
    &&& region_fits(h.regions[c as int], size)
}

/// Whether region `i` is full and takes nothing: another one is allocated into by now, or it has
/// turned full since the last sweep.
pub open spec fn is_closed(h: HeapView, i: int) -> bool {
    h.regions[i].state == RegionState::Full && (h.current != Some(i as nat) || h.closed)
}

/// The heap after its current region, if there is one, has turned out too small.
pub open spec fn current_filled(h: HeapView) -> HeapView {
    match h.current {
        Some(c) => HeapView {
            regions: h.regions.update(c as int, filled(h.regions[c as int])),
            closed: true,
            ..h
        },
        None => h,
    }
}

/// The heap after `size` bytes were allocated in region `i`, and the handle of them.
pub open spec fn allocated_in(h: HeapView, i: nat, size: nat) -> (Option<RegionHandle>, HeapView) {
    let r = h.regions[i as int];
    (
        Some(region_handle(i, align_up(r.offset))),
        HeapView {
            regions: h.regions.update(i as int, bumped(r, size)),
            current: Some(i),
            closed: false,
        },
    )
}

/// What an allocation of `size` bytes returns and leaves behind: the current region serves
/// it if it can, else the first free one does and becomes current.
pub open spec fn heap_alloc(h: HeapView, size: nat) -> (Option<RegionHandle>, HeapView) {
    if size > REGION_SIZE {
        (None, h)
    } else if current_fits(h, size) {
        allocated_in(h, h.current->0, size)
    } else {
        let rest = current_filled(h);
        let i = first_free(rest.regions, 0);
        if i < rest.regions.len() {
            allocated_in(rest, i, size)
        } else {
            (None, rest)
        }
    }
}

/// The heap with `data` laid over the bytes from `h` on.
pub open spec fn written(heap: HeapView, h: RegionHandle, data: Seq<u8>) -> HeapView {
    let r = heap.regions[h.region as int];
    HeapView {
        regions: heap.regions.update(
            h.region as int,
            RegionView { bytes: overlay(r.bytes, h.offset as int, data), ..r },
        ),
        ..heap
    }
}

/// The heap with every live count at zero.
pub open spec fn unmarked(h: HeapView) -> HeapView {
    HeapView {
        regions: h.regions.map_values(|r: RegionView| RegionView { live_count: 0, ..r }),
        ..h
    }
}

/// The heap with one more survivor counted in region `i`.
pub open spec fn marked(h: HeapView, i: int) -> HeapView {
    let r = h.regions[i];
    HeapView {
        regions: h.regions.update(i, RegionView { live_count: r.live_count + 1, ..r }),
        ..h
    }
}

/// Whether a sweep reclaims a region.
pub open spec fn is_dead(r: RegionView) -> bool {
    !is_free(r) && r.live_count == 0
}

/// What a sweep makes of one region.
pub open spec fn swept_region(r: RegionView) -> RegionView {
    if is_dead(r) {
        cleared(r)
    } else {
        r
    }
}

/// What a sweep makes of the heap: dead regions are cleared, all others stay as they are. The
/// current region, if it is kept, takes what still fits again.
pub open spec fn swept(h: HeapView) -> HeapView {
    HeapView {
        regions: h.regions.map_values(|r: RegionView| swept_region(r)),
        current: match h.current {
            Some(c) if is_dead(h.regions[c as int]) => None,
            other => other,
        },
        closed: false,
    }
}

impl RegionHeap {
    pub open spec fn wf(&self) -> bool {
        heap_wf(self@)
    }

    /// Construct a heap with `n` empty regions. Total capacity is
    /// `n * REGION_SIZE` bytes.
    pub fn with_regions(n: usize) -> (heap: Self)
        ensures
            heap.wf(),
            heap@.regions == Seq::new(n as nat, |i: int| fresh_region()),
            heap@.current is None,
            !heap@.closed,
            heap@.regions.len() == n,
            forall|i: int|
                0 <= i < n ==> {
                    let r = #[trigger] heap@.regions[i];
                    &&& r.state == RegionState::Free
                    &&& r.offset == 0
                    &&& r.live_count == 0
                    &&& r.bytes.len() == 32768
                    &&& forall|k: int| 0 <= k < 32768 ==> #[trigger] r.bytes[k] == 0
                },
    {
        let mut regions: Vec<Region> = Vec::new();
        while regions.len() < n
            invariant
                regions@.len() <= n,
                forall|i: int| 0 <= i < regions@.len() ==> (#[trigger] regions@[i])@ == fresh_region(),
            decreases n - regions@.len(),
        {
            regions.push(Region::new());
        }
        let heap = Self { regions, current: None, closed: false };
        assert(heap@.regions =~= Seq::new(n as nat, |i: int| fresh_region()));
        heap
    }

    pub fn n_regions(&self) -> (n: usize)
        ensures
            n == self@.regions.len(),
    {
        self.regions.len()
    }

    /// How many regions are free.
    pub fn n_free(&self) -> (n: usize)
        ensures
            n == free_count(self@.regions),
    {
        let mut n: usize = 0;
        let mut i: usize = 0;
        proof {
            reveal(Seq::filter);
            assert(self@.regions.take(0) =~= Seq::empty());
        }
        while i < self.regions.len()
            invariant
                n <= i <= self.regions@.len(),
                n == free_count(self@.regions.take(i as int)),
            decreases self.regions@.len() - i,
        {
            proof {
                reveal(Seq::filter);
                let longer = self@.regions.take(i + 1);
                assert(longer.drop_last() =~= self@.regions.take(i as int));
                assert(longer.last() == self.regions@[i as int]@);
            }
            if self.regions[i].state == RegionState::Free {
                n = n + 1;
            }
            i = i + 1;
        }
        assert(self@.regions.take(i as int) =~= self@.regions);
        n
    }

    pub fn region(&self, idx: usize) -> (region: &Region)
        requires
            idx < self@.regions.len(),
        ensures
            region@ == self@.regions[idx as int],
    {
        &self.regions[idx]
    }

    /// Allocate `size` bytes. Returns `None` if no region has room *and* no
    /// region is free. `size` larger than [`REGION_SIZE`] always returns
    /// `None`.
    pub fn allocate(&mut self, size: usize) -> (handle: Option<RegionHandle>)
        requires
            old(self).wf(),
        ensures
            final(self).wf(),
            (handle, final(self)@) == heap_alloc(old(self)@, size as nat),
    {
        if size > REGION_SIZE {
            return None;
        }
        let ghost before = self@;
        if let Some(idx) = self.current {
            assert(region_wf(before.regions[idx as int]));
            if !self.closed {
                if let Some(off) = self.regions[idx].try_alloc(size) {
                    proof {
                        assert(idx as u32 == (idx as u64) % 0x1_0000_0000u64) by (bit_vector);
                        assert(off as u32 == (off as u64) % 0x1_0000_0000u64) by (bit_vector);
                        assert(self@.regions =~= before.regions.update(
                            idx as int,
                            bumped(before.regions[idx as int], size as nat),
                        ));
                    }
                    return Some(RegionHandle { region: idx as u32, offset: off as u32 });
                }
                self.closed = true;
            }
        }
        let ghost rest = current_filled(before);
        assert(self@.regions =~= rest.regions);
        assert(self@ == rest);
        assert(heap_wf(rest));
        assert(forall|k: int|
            0 <= k < rest.regions.len() ==> (#[trigger] rest.regions[k]).state
                != RegionState::Allocating);
        // Current region full or unset - find a free region.
        let mut i: usize = 0;
        while i < self.regions.len()
            invariant
                i <= self.regions@.len(),
                size <= REGION_SIZE,
                self@ == rest,
                heap_wf(rest),
                forall|k: int|
                    0 <= k < rest.regions.len() ==> (#[trigger] rest.regions[k]).state
                        != RegionState::Allocating,
                first_free(rest.regions, 0) == first_free(rest.regions, i as nat),
                !current_fits(before, size as nat),
                rest == current_filled(before),
                before == old(self)@,
            decreases self.regions@.len() - i,
        {
            assert(region_wf(rest.regions[i as int]));
            if self.regions[i].state == RegionState::Free {
                if let Some(off) = self.regions[i].try_alloc(size) {
                    self.current = Some(i);
                    self.closed = false;
                    proof {
                        assert(i as u32 == (i as u64) % 0x1_0000_0000u64) by (bit_vector);
                        assert(off as u32 == (off as u64) % 0x1_0000_0000u64) by (bit_vector);
                        assert(self@.regions =~= rest.regions.update(
                            i as int,
                            bumped(rest.regions[i as int], size as nat),
                        ));
                    }
                    return Some(RegionHandle { region: i as u32, offset: off as u32 });
                }
            }
            i = i + 1;
        }
        None
    }

    /// The `len` bytes from `h` on.
    pub fn read(&self, h: RegionHandle, len: usize) -> (data: &[u8])
        requires
            self.wf(),
            h.region < self@.regions.len(),
            h.offset + len <= REGION_SIZE,
        ensures
            data@ == self@.regions[h.region as int].bytes.subrange(
                h.offset as int,
                h.offset + len,
            ),
    {
        let r = &self.regions[h.region as usize];
        let start: usize = h.offset as usize;
        &r.bytes[start..start + len]
    }

    /// Copies `data` into the region of `h`, from its offset on.
    pub fn write(&mut self, h: RegionHandle, data: &[u8])
        requires
            old(self).wf(),
            h.region < old(self)@.regions.len(),
            h.offset + data@.len() <= REGION_SIZE,
        ensures
            final(self).wf(),
            final(self)@ == written(old(self)@, h, data@),
    {
        let ghost before = self@;
        let idx: usize = h.region as usize;
        let start: usize = h.offset as usize;
        let ghost target = before.regions[idx as int];
        let mut i: usize = 0;
        assert(overlay(target.bytes, start as int, data@.take(0)) =~= target.bytes);
        while i < data.len()
            invariant
                i <= data@.len(),
                idx < before.regions.len(),
                before.regions.len() == self.regions@.len(),
                start + data@.len() <= REGION_SIZE,
                target.bytes.len() == REGION_SIZE,
                self@.current == before.current,
                self@.closed == before.closed,
                forall|k: int|
                    0 <= k < before.regions.len() ==> (#[trigger] self.regions@[k])@ == (if k
                        == idx {
                        RegionView {
                            bytes: overlay(target.bytes, start as int, data@.take(i as int)),
                            ..target
                        }
                    } else {
                        before.regions[k]
                    }),
            decreases data@.len() - i,
        {
            let r = &mut self.regions[idx];
            r.bytes[start + i] = data[i];
            i = i + 1;
            assert(self.regions@[idx as int].bytes@ =~= overlay(
                target.bytes,
                start as int,
                data@.take(i as int),
            ));
        }
        assert(data@.take(i as int) =~= data@);
        assert(self@.regions =~= written(before, h, data@).regions);
    }

    /// Reset all per-region live counts before a mark phase.
    pub fn pre_mark(&mut self)
        requires
            old(self).wf(),
        ensures
            final(self).wf(),
            final(self)@ == unmarked(old(self)@),
    {
        let ghost before = self@;
        let mut i: usize = 0;
        while i < self.regions.len()
            invariant
                i <= self.regions@.len(),
                self@.current == before.current,
                self@.closed == before.closed,
                self.regions@.len() == before.regions.len(),
                forall|k: int|
                    0 <= k < before.regions.len() ==> (#[trigger] self.regions@[k])@ == (if k < i {
                        RegionView { live_count: 0, ..before.regions[k] }
                    } else {
                        before.regions[k]
                    }),
            decreases self.regions@.len() - i,
        {
            self.regions[i].live_count = 0;
            i = i + 1;
        }
        assert(self@.regions =~= unmarked(before).regions);
    }

    /// Record that `h` survived the mark phase. Bumps its region's live count.
    pub fn mark_live(&mut self, h: RegionHandle)
        requires
            old(self).wf(),
            h.region < old(self)@.regions.len(),
            old(self)@.regions[h.region as int].live_count < u32::MAX,
        ensures
            final(self).wf(),
            final(self)@ == marked(old(self)@, h.region as int),
    {
        let ghost before = self@;
        let idx: usize = h.region as usize;
        self.regions[idx].live_count = self.regions[idx].live_count + 1;
        assert(self@.regions =~= marked(before, idx as int).regions);
    }

    /// Reclaim every region whose live count is zero. Returns the number of
    /// regions freed. Partially-live regions are untouched (no compaction).
    pub fn sweep(&mut self) -> (freed: usize)
        requires
            old(self).wf(),
        ensures
            final(self).wf(),
            final(self)@ == swept(old(self)@),
            freed == old(self)@.regions.filter(|r: RegionView| is_dead(r)).len(),
    {
        let ghost before = self@;
        let ghost dead = |r: RegionView| is_dead(r);
        let mut freed: usize = 0;
        let mut i: usize = 0;
        proof {
            reveal(Seq::filter);
            assert(before.regions.take(0) =~= Seq::empty());
        }
        while i < self.regions.len()
            invariant
                freed <= i <= self.regions@.len(),
                heap_wf(before),
                dead == (|r: RegionView| is_dead(r)),
                freed == before.regions.take(i as int).filter(dead).len(),
                self@.regions.len() == before.regions.len(),
                forall|k: int|
                    0 <= k < before.regions.len() ==> #[trigger] self@.regions[k] == (if k < i {
                        swept_region(before.regions[k])
                    } else {
                        before.regions[k]
                    }),
                self@.current == (match before.current {
                    Some(c) if c < i && is_dead(before.regions[c as int]) => None,
                    other => other,
                }),
            decreases self.regions@.len() - i,
        {
            proof {
                reveal(Seq::filter);
                let longer = before.regions.take(i + 1);
                assert(longer.drop_last() =~= before.regions.take(i as int));
                assert(longer.last() == before.regions[i as int]);
                assert(self@.regions[i as int] == self.regions@[i as int]@);
            }
            if self.regions[i].state != RegionState::Free && self.regions[i].live_count == 0 {
                self.regions[i].reset();
                if self.current == Some(i) {
                    self.current = None;
                }
                freed = freed + 1;
            }
            i = i + 1;
        }
        self.closed = false;
        proof {
            assert(before.regions.take(i as int) =~= before.regions);
            assert(self@.regions =~= swept(before).regions);
        }
        freed
    }
}

/// What was written is what a read of the same handle gives back.
pub proof fn heap_write_reads_back(heap: HeapView, h: RegionHandle, data: Seq<u8>)
    requires
        heap_wf(heap),
        h.region < heap.regions.len(),
        h.offset + data.len() <= REGION_SIZE,
    ensures
        written(heap, h, data).regions[h.region as int].bytes.subrange(
            h.offset as int,
            h.offset + data.len(),
        ) == data,
{
    let r = heap.regions[h.region as int];
    assert(region_wf(r));
    overlay_reads_back(r.bytes, h.offset as int, data);
}

/// A write changes no byte that another handle, in another region or beside it in the same
/// one, reads.
pub proof fn heap_write_keeps_the_rest(
    heap: HeapView,
    h: RegionHandle,
    data: Seq<u8>,
    other: RegionHandle,
    len: nat,
)
    requires
        heap_wf(heap),
        h.region < heap.regions.len(),
        h.offset + data.len() <= REGION_SIZE,
        other.region < heap.regions.len(),
        other.offset + len <= REGION_SIZE,
        other.region != h.region || other.offset + len <= h.offset || h.offset + data.len()
            <= other.offset,
    ensures
        written(heap, h, data).regions[other.region as int].bytes.subrange(
            other.offset as int,
            other.offset + len,
        ) == heap.regions[other.region as int].bytes.subrange(
            other.offset as int,
            other.offset + len,
        ),
{
    let r = heap.regions[h.region as int];
    assert(region_wf(r));
    if other.region == h.region {
        overlay_keeps_the_rest(
            r.bytes,
            h.offset as int,
            data,
            other.offset as int,
            other.offset + len,
        );
    }
}

/// [`first_free`] is the index of a free region, if there is any, and of none that has a
/// free one before it.
pub proof fn first_free_is_first(regions: Seq<RegionView>, from: nat, i: int)
    requires
        from <= regions.len(),
    ensures
        from <= first_free(regions, from) <= regions.len(),
        first_free(regions, from) < regions.len() ==> is_free(
            regions[first_free(regions, from) as int],
        ),
        from <= i < first_free(regions, from) ==> !is_free(regions[i]),
    decreases regions.len() - from,
{
    if from < regions.len() && !is_free(regions[from as int]) {
        first_free_is_first(regions, from + 1, i);
    }
}

/// An allocation fails exactly if it is larger than a region, or no region is free and the
/// current one, if there is any, has no room for it or has turned full since the last sweep.
pub proof fn alloc_fails_only_without_room(h: HeapView, size: nat)
    requires
        heap_wf(h),
    ensures
        heap_alloc(h, size).0 is None <==> size > REGION_SIZE || !current_fits(h, size) && forall|
            i: int,
        |
            0 <= i < h.regions.len() ==> !is_free(#[trigger] h.regions[i]),
{
    if size <= REGION_SIZE && !current_fits(h, size) {
        let rest = current_filled(h).regions;
        let f = first_free(rest, 0);
        first_free_is_first(rest, 0, 0);
        if f == rest.len() {
            assert forall|i: int| 0 <= i < h.regions.len() implies !is_free(
                #[trigger] h.regions[i],
            ) by {
                first_free_is_first(rest, 0, i);
                assert(!is_free(rest[i]));
            }
        } else {
            assert(is_free(rest[f as int]));
            assert(is_free(h.regions[f as int]));
        }
    }
}

/// No region ever serves a request that is larger than a region; the heap stays as it is.
pub proof fn oversized_alloc_fails(h: HeapView, size: nat)
    requires
        size > REGION_SIZE,
    ensures
        heap_alloc(h, size) == (None::<RegionHandle>, h),
{
}

/// What an allocation does to each region: at most one gets bytes, beyond its bump pointer
/// and within the region; no byte, live count or other bump pointer changes.
pub proof fn alloc_only_grows(h: HeapView, size: nat, i: int)
    requires
        heap_wf(h),
        0 <= i < h.regions.len(),
    ensures
        heap_wf(heap_alloc(h, size).1),
        heap_alloc(h, size).1.regions.len() == h.regions.len(),
        ({
            let before = h.regions[i];
            let after = heap_alloc(h, size).1.regions[i];
            &&& after.bytes == before.bytes
            &&& after.live_count == before.live_count
            &&& before.offset <= after.offset <= REGION_SIZE
            &&& heap_alloc(h, size).0 is None ==> after.offset == before.offset
        }),
{
    let rest = current_filled(h);
    first_free_is_first(rest.regions, 0, 0);
    assert(region_wf(h.regions[i]));
    align_up_is_least_multiple(h.regions[i].offset, 0);
    let post = heap_alloc(h, size).1;
    assert forall|k: int| 0 <= k < post.regions.len() implies region_wf(
        #[trigger] post.regions[k],
    ) by {
        assert(region_wf(h.regions[k]));
        align_up_is_least_multiple(h.regions[k].offset, 0);
    }
    assert forall|k: int|
        0 <= k < post.regions.len() && (#[trigger] post.regions[k]).state
            == RegionState::Allocating implies post.current == Some(k as nat) by {
        assert(h.regions[k].state == RegionState::Allocating || post.current == Some(k as nat));
    }
}

/// Where a successful allocation lies, in a heap whose regions 32-bit indices can address:
/// at a multiple of 8, from the old bump pointer of its region or later, up to the new one.
pub proof fn alloc_lies_beyond_older_bytes(h: HeapView, size: nat)
    requires
        heap_wf(h),
        h.regions.len() <= 0x1_0000_0000,
        heap_alloc(h, size).0 is Some,
    ensures
        ({
            let handle = heap_alloc(h, size).0->0;
            let i = handle.region as int;
            &&& i < h.regions.len()
            &&& handle.offset % 8 == 0
            &&& h.regions[i].offset <= handle.offset
            &&& handle.offset + size == heap_alloc(h, size).1.regions[i].offset
            &&& heap_alloc(h, size).1.current == Some(i as nat)
        }),
{
    let rest = current_filled(h);
    first_free_is_first(rest.regions, 0, 0);
    let i = if current_fits(h, size) {
        h.current->0
    } else {
        first_free(rest.regions, 0)
    };
    assert(region_wf(h.regions[i as int]));
    align_up_is_least_multiple(h.regions[i as int].offset, 0);
    assert(heap_alloc(h, size).0->0.region == i);
}

/// Two allocations with no sweep of their region between them never overlap. `later` is the
/// heap at the second one: the bump pointer of the first one's region has not gone back.
pub proof fn heap_allocations_are_disjoint(h: HeapView, size: nat, later: HeapView, later_size: nat)
    requires
        heap_wf(h),
        heap_wf(later),
        h.regions.len() <= 0x1_0000_0000,
        later.regions.len() == h.regions.len(),
        heap_alloc(h, size).0 is Some,
        heap_alloc(later, later_size).0 is Some,
        ({
            let i = heap_alloc(h, size).0->0.region as int;
            heap_alloc(h, size).1.regions[i].offset <= later.regions[i].offset
        }),
    ensures
        ({
            let a = heap_alloc(h, size).0->0;
            let b = heap_alloc(later, later_size).0->0;
            a.region != b.region || a.offset + size <= b.offset
        }),
{
    alloc_lies_beyond_older_bytes(h, size);
    alloc_lies_beyond_older_bytes(later, later_size);
}

/// A region that turned full takes no allocation, and goes on to take none, until a sweep.
pub proof fn full_region_takes_nothing(h: HeapView, size: nat, i: int)
    requires
        heap_wf(h),
        0 <= i < h.regions.len(),
        is_closed(h, i),
    ensures
        heap_alloc(h, size).1.regions[i] == h.regions[i],
        is_closed(heap_alloc(h, size).1, i),
{
    first_free_is_first(current_filled(h).regions, 0, 0);
}

/// A region that an allocation turns full is closed at once.
pub proof fn filling_closes_a_region(h: HeapView, size: nat, i: int)
    requires
        heap_wf(h),
        0 <= i < h.regions.len(),
        h.regions[i].state != RegionState::Full,
        heap_alloc(h, size).1.regions[i].state == RegionState::Full,
    ensures
        is_closed(heap_alloc(h, size).1, i),
{
    first_free_is_first(current_filled(h).regions, 0, 0);
}

/// After a sweep the current region, if it is kept, takes whatever fits behind its bump pointer.
pub proof fn sweep_reopens_the_current_region(h: HeapView, size: nat)
    requires
        heap_wf(h),
        swept(h).current is Some,
        region_fits(swept(h).regions[swept(h).current->0 as int], size),
    ensures
        heap_alloc(swept(h), size) == allocated_in(swept(h), h.current->0, size),
        swept(h).current == h.current,
        swept(h).regions[h.current->0 as int] == h.regions[h.current->0 as int],
{
}

/// A sweep touches no region with a live object in it: neither its bytes nor its bump
/// pointer nor its state.
pub proof fn sweep_keeps_live_regions(h: HeapView, i: int)
    requires
        heap_wf(h),
        0 <= i < h.regions.len(),
        h.regions[i].live_count > 0,
    ensures
        swept(h).regions[i] == h.regions[i],
{
}

/// After a sweep a region is free exactly if it was free before or had no live object.
pub proof fn sweep_frees_dead_regions(h: HeapView, i: int)
    requires
        heap_wf(h),
        0 <= i < h.regions.len(),
    ensures
        is_free(swept(h).regions[i]) <==> is_free(h.regions[i]) || h.regions[i].live_count == 0,
{
}

/// A sweep leaves as many more regions free as it reports.
pub proof fn sweep_counts_freed_regions(h: HeapView)
    ensures
        free_count(swept(h).regions) == free_count(h.regions) + h.regions.filter(
            |r: RegionView| is_dead(r),
        ).len(),
{
    sweep_counts_freed(h.regions);
}

proof fn sweep_counts_freed(regions: Seq<RegionView>)
    ensures
        free_count(regions.map_values(|r: RegionView| swept_region(r))) == free_count(regions)
            + regions.filter(|r: RegionView| is_dead(r)).len(),
    decreases regions.len(),
{
    reveal(Seq::filter);
    let sweep = |r: RegionView| swept_region(r);
    if regions.len() > 0 {
        sweep_counts_freed(regions.drop_last());
        assert(regions.map_values(sweep).drop_last() =~= regions.drop_last().map_values(sweep));
    }
}

/// After a sweep that freed anything, every request up to the size of a region is served.
pub proof fn sweep_lets_allocation_go_on(h: HeapView, size: nat)
    requires
        heap_wf(h),
        size <= REGION_SIZE,
        exists|i: int| 0 <= i < h.regions.len() && is_dead(#[trigger] h.regions[i]),
    ensures
        heap_wf(swept(h)),
        heap_alloc(swept(h), size).0 is Some,
{
    let i = choose|i: int| 0 <= i < h.regions.len() && is_dead(#[trigger] h.regions[i]);
    let post = swept(h);
    assert(is_free(post.regions[i]));
    assert forall|k: int| 0 <= k < post.regions.len() implies region_wf(
        #[trigger] post.regions[k],
    ) by {
        assert(region_wf(h.regions[k]));
    }
    assert forall|k: int|
        0 <= k < post.regions.len() && (#[trigger] post.regions[k]).state
            == RegionState::Allocating implies post.current == Some(k as nat) by {
        assert(h.regions[k].state == RegionState::Allocating);
    }
    alloc_fails_only_without_room(post, size);
}

/// The heap after `survivors` were recorded, one after the other.
pub open spec fn marked_all(h: HeapView, survivors: Seq<RegionHandle>) -> HeapView
    decreases survivors.len(),
{
    if survivors.len() == 0 {
        h
    } else {
        marked(marked_all(h, survivors.drop_last()), survivors.last().region as int)
    }
}

/// The collector cycle: `pre_mark`, one `mark_live` for each survivor, `sweep`. A region that
/// was in use is kept, bytes, bump pointer and state, if a survivor lies in it, and is free
/// if none does; a free one stays free.
pub proof fn cycle_keeps_exactly_regions_with_survivors(
    h: HeapView,
    survivors: Seq<RegionHandle>,
    i: int,
)
    requires
        heap_wf(h),
        0 <= i < h.regions.len(),
        forall|k: int| 0 <= k < survivors.len() ==> (#[trigger] survivors[k]).region < h.regions.len(),
    ensures
        ({
            let before = h.regions[i];
            let after = swept(marked_all(unmarked(h), survivors)).regions[i];
            let kept = exists|k: int| 0 <= k < survivors.len() && (#[trigger] survivors[k]).region == i;
            &&& is_free(after) <==> is_free(before) || !kept
            &&& kept ==> after.bytes == before.bytes && after.offset == before.offset
                && after.state == before.state
        }),
{
    marking_counts_survivors(unmarked(h), survivors, i);
}

proof fn marking_counts_survivors(h: HeapView, survivors: Seq<RegionHandle>, i: int)
    requires
        0 <= i < h.regions.len(),
        h.regions[i].live_count == 0,
        forall|k: int| 0 <= k < survivors.len() ==> (#[trigger] survivors[k]).region < h.regions.len(),
    ensures
        marked_all(h, survivors).regions.len() == h.regions.len(),
        ({
            let before = h.regions[i];
            let after = marked_all(h, survivors).regions[i];
            let kept = exists|k: int| 0 <= k < survivors.len() && (#[trigger] survivors[k]).region == i;
            &&& after.bytes == before.bytes
            &&& after.offset == before.offset
            &&& after.state == before.state
            &&& after.live_count > 0 <==> kept
        }),
    decreases survivors.len(),
{
    if survivors.len() > 0 {
        let fewer = survivors.drop_last();
        assert forall|k: int| 0 <= k < fewer.len() implies (#[trigger] fewer[k]).region
            < h.regions.len() by {
            assert(fewer[k] == survivors[k]);
        }
        marking_counts_survivors(h, fewer, i);
        assert(survivors[survivors.len() - 1] == survivors.last());
        if exists|k: int| 0 <= k < fewer.len() && (#[trigger] fewer[k]).region == i {
            let k = choose|k: int| 0 <= k < fewer.len() && (#[trigger] fewer[k]).region == i;
            assert(survivors[k].region == i);
        }
        if exists|k: int| 0 <= k < survivors.len() && (#[trigger] survivors[k]).region == i {
            let k = choose|k: int| 0 <= k < survivors.len() && (#[trigger] survivors[k]).region == i;
            if k < fewer.len() {
                assert(fewer[k].region == i);
            }
        }
    }
}

/// A current region that has not turned full since the last sweep serves every request that the
/// next multiple of 8 behind its bump pointer leaves room for, there; nothing else changes.
pub proof fn open_region_serves_what_fits(h: HeapView, size: nat, c: nat)
    requires
        heap_wf(h),
        h.current == Some(c),
        !h.closed,
        (h.regions[c as int].offset + 7) / 8 * 8 + size <= 32768,
    ensures
        ({
            let at = (h.regions[c as int].offset + 7) / 8 * 8;
            let (handle, post) = heap_alloc(h, size);
            &&& handle is Some
            &&& handle->0.region == c % 0x1_0000_0000
            &&& handle->0.offset == at
            &&& post.current == Some(c)
            &&& !post.closed
            &&& post.regions.len() == h.regions.len()
            &&& post.regions[c as int].offset == at + size
            &&& post.regions[c as int].state == RegionState::Allocating
            &&& post.regions[c as int].bytes == h.regions[c as int].bytes
            &&& post.regions[c as int].live_count == h.regions[c as int].live_count
            &&& forall|j: int|
                0 <= j < h.regions.len() && j != c ==> #[trigger] post.regions[j] == h.regions[j]
        }),
{
}

/// A request up to the size of a region that the current region does not serve goes to the start
/// of the first free region, which becomes current; the one that was current turns full, and no
/// other region changes.
pub proof fn spill_takes_the_first_free_region(h: HeapView, size: nat, i: int)
    requires
        heap_wf(h),
        size <= 32768,
        h.current is None || h.closed || (h.regions[h.current->0 as int].offset + 7) / 8 * 8 + size
            > 32768,
        0 <= i < h.regions.len(),
        h.regions[i].state == RegionState::Free,
        forall|j: int| 0 <= j < i ==> (#[trigger] h.regions[j]).state != RegionState::Free,
    ensures
        ({
            let (handle, post) = heap_alloc(h, size);
            &&& handle is Some
            &&& handle->0.region == i % 0x1_0000_0000
            &&& handle->0.offset == 0
            &&& post.current == Some(i as nat)
            &&& !post.closed
            &&& post.regions.len() == h.regions.len()
            &&& post.regions[i].offset == size
            &&& post.regions[i].state == RegionState::Allocating
            &&& post.regions[i].bytes == h.regions[i].bytes
            &&& post.regions[i].live_count == h.regions[i].live_count
            &&& forall|j: int|
                0 <= j < h.regions.len() && j != i ==> #[trigger] post.regions[j] == (
                RegionView {
                    state: if h.current == Some(j as nat) {
                        RegionState::Full
                    } else {
                        h.regions[j].state
                    },
                    ..h.regions[j]
                })
        }),
{
    let rest = current_filled(h).regions;
    first_free_is_first(rest, 0, i);
    let f = first_free(rest, 0) as int;
    assert(region_wf(h.regions[i]));
    assert(is_free(rest[i]));
    if f < i {
        assert(is_free(rest[f]));
        assert(h.regions[f].state == RegionState::Free);
    }
}

/// A request that neither the current region nor a free one serves fails. The current region, if
/// there is one, turns full and is closed until the next sweep; no other region changes. A request
/// larger than a region changes nothing at all.
pub proof fn refused_request_closes_the_current_region(h: HeapView, size: nat)
    requires
        heap_wf(h),
        size > 32768 || h.current is None || h.closed || (h.regions[h.current->0 as int].offset + 7)
            / 8 * 8 + size > 32768,
        size > 32768 || forall|j: int|
            0 <= j < h.regions.len() ==> (#[trigger] h.regions[j]).state != RegionState::Free,
    ensures
        ({
            let (handle, post) = heap_alloc(h, size);
            &&& handle is None
            &&& size > 32768 ==> post == h
            &&& post.current == h.current
            &&& size <= 32768 ==> (post.closed <==> h.current is Some)
            &&& post.regions.len() == h.regions.len()
            &&& size <= 32768 ==> forall|j: int|
                0 <= j < h.regions.len() ==> #[trigger] post.regions[j] == (RegionView {
                    state: if h.current == Some(j as nat) {
                        RegionState::Full
                    } else {
                        h.regions[j].state
                    },
                    ..h.regions[j]
                })
        }),
{
    let rest = current_filled(h).regions;
    first_free_is_first(rest, 0, 0);
    let f = first_free(rest, 0) as int;
    if size <= 32768 && f < rest.len() {
        assert(is_free(rest[f]));
        assert(h.regions[f].state == RegionState::Free);
    }
}

/// A write moves no bump pointer, changes no state and no live count, and leaves the current
/// region the current one, open or closed as it was. It is bytes alone that change.
pub proof fn write_changes_bytes_alone(heap: HeapView, h: RegionHandle, data: Seq<u8>, i: int)
    requires
        heap_wf(heap),
        h.region < heap.regions.len(),
        h.offset + data.len() <= REGION_SIZE,
        0 <= i < heap.regions.len(),
    ensures
        heap_wf(written(heap, h, data)),
        written(heap, h, data).current == heap.current,
        written(heap, h, data).closed == heap.closed,
        written(heap, h, data).regions.len() == heap.regions.len(),
        written(heap, h, data).regions[i].offset == heap.regions[i].offset,
        written(heap, h, data).regions[i].state == heap.regions[i].state,
        written(heap, h, data).regions[i].live_count == heap.regions[i].live_count,
        written(heap, h, data).regions[i].bytes.len() == heap.regions[i].bytes.len(),
{
    let post = written(heap, h, data);
    assert forall|k: int| 0 <= k < post.regions.len() implies region_wf(
        #[trigger] post.regions[k],
    ) by {
        assert(region_wf(heap.regions[k]));
    }
    assert forall|k: int|
        0 <= k < post.regions.len() && (#[trigger] post.regions[k]).state
            == RegionState::Allocating implies post.current == Some(k as nat) by {
        assert(heap.regions[k].state == RegionState::Allocating);
    }
}

/// Before a mark phase every live count is reset, and nothing else changes.
pub proof fn pre_mark_changes_live_counts_alone(h: HeapView, i: int)
    requires
        heap_wf(h),
        0 <= i < h.regions.len(),
    ensures
        heap_wf(unmarked(h)),
        unmarked(h).current == h.current,
        unmarked(h).closed == h.closed,
        unmarked(h).regions.len() == h.regions.len(),
        unmarked(h).regions[i].live_count == 0,
        unmarked(h).regions[i].bytes == h.regions[i].bytes,
        unmarked(h).regions[i].offset == h.regions[i].offset,
        unmarked(h).regions[i].state == h.regions[i].state,
{
    let post = unmarked(h);
    assert forall|k: int| 0 <= k < post.regions.len() implies region_wf(
        #[trigger] post.regions[k],
    ) by {
        assert(region_wf(h.regions[k]));
    }
    assert forall|k: int|
        0 <= k < post.regions.len() && (#[trigger] post.regions[k]).state
            == RegionState::Allocating implies post.current == Some(k as nat) by {
        assert(h.regions[k].state == RegionState::Allocating);
    }
}

/// A survivor is counted in its region, once, and nothing else changes.
pub proof fn mark_live_counts_one_survivor(h: HeapView, survivor: int, i: int)
    requires
        heap_wf(h),
        0 <= survivor < h.regions.len(),
        h.regions[survivor].live_count < u32::MAX,
        0 <= i < h.regions.len(),
    ensures
        heap_wf(marked(h, survivor)),
        marked(h, survivor).current == h.current,
        marked(h, survivor).closed == h.closed,
        marked(h, survivor).regions.len() == h.regions.len(),
        marked(h, survivor).regions[i].live_count == h.regions[i].live_count + (if i == survivor {
            1int
        } else {
            0
        }),
        marked(h, survivor).regions[i].bytes == h.regions[i].bytes,
        marked(h, survivor).regions[i].offset == h.regions[i].offset,
        marked(h, survivor).regions[i].state == h.regions[i].state,
{
    let post = marked(h, survivor);
    assert forall|k: int| 0 <= k < post.regions.len() implies region_wf(
        #[trigger] post.regions[k],
    ) by {
        assert(region_wf(h.regions[k]));
    }
    assert forall|k: int|
        0 <= k < post.regions.len() && (#[trigger] post.regions[k]).state
            == RegionState::Allocating implies post.current == Some(k as nat) by {
        assert(h.regions[k].state == RegionState::Allocating);
    }
}

/// What a sweep does to a region: one in use without survivors is empty and free afterwards, with
/// its bytes as they were; every other one stays as it is. The current region stays current unless
/// it was freed, and is open.
pub proof fn sweep_resets_dead_regions_alone(h: HeapView, i: int)
    requires
        heap_wf(h),
        0 <= i < h.regions.len(),
    ensures
        swept(h).regions.len() == h.regions.len(),
        ({
            let before = h.regions[i];
            let after = swept(h).regions[i];
            if before.state != RegionState::Free && before.live_count == 0 {
                &&& after.state == RegionState::Free
                &&& after.offset == 0
                &&& after.live_count == 0
                &&& after.bytes == before.bytes
            } else {
                after == before
            }
        }),
        h.current == Some(i as nat) ==> swept(h).current == (if h.regions[i].live_count == 0 {
            None
        } else {
            Some(i as nat)
        }),
        h.current is None ==> swept(h).current is None,
        !swept(h).closed,
{
}

/// The free regions are counted one by one, and so are those that a sweep frees.
pub proof fn regions_are_counted_one_by_one(regions: Seq<RegionView>, r: RegionView)
    ensures
        free_count(Seq::<RegionView>::empty()) == 0,
        free_count(regions.push(r)) == free_count(regions) + (if r.state == RegionState::Free {
            1int
        } else {
            0
        }),
        regions.push(r).filter(|x: RegionView| is_dead(x)).len() == regions.filter(
            |x: RegionView| is_dead(x),
        ).len() + (if r.state != RegionState::Free && r.live_count == 0 {
            1int
        } else {
            0
        }),
{
    reveal(Seq::filter);
    assert(regions.push(r).drop_last() =~= regions);
}

/// An operation on the heap other than a sweep.
pub enum HeapOp {
    Allocate { size: nat },
    Write { handle: RegionHandle, data: Seq<u8> },
    PreMark,
    MarkLive { handle: RegionHandle },
}

/// Whether an operation is called with a handle into the heap.
pub open spec fn can_do(h: HeapView, op: HeapOp) -> bool {
    match op {
        HeapOp::Allocate { size } => true,
        HeapOp::Write { handle, data } => handle.region < h.regions.len() && handle.offset
            + data.len() <= REGION_SIZE,
        HeapOp::PreMark => true,
        HeapOp::MarkLive { handle } => handle.region < h.regions.len()
            && h.regions[handle.region as int].live_count < u32::MAX,
    }
}

/// The heap after an operation.
pub open spec fn done(h: HeapView, op: HeapOp) -> HeapView {
    match op {
        HeapOp::Allocate { size } => heap_alloc(h, size).1,
        HeapOp::Write { handle, data } => written(h, handle, data),
        HeapOp::PreMark => unmarked(h),
        HeapOp::MarkLive { handle } => marked(h, handle.region as int),
    }
}

/// The heap after a run of operations.
pub open spec fn done_all(h: HeapView, ops: Seq<HeapOp>) -> HeapView
    decreases ops.len(),
{
    if ops.len() == 0 {
        h
    } else {
        done(done_all(h, ops.drop_last()), ops.last())
    }
}

/// Whether a run of operations can be done, one after the other.
pub open spec fn can_do_all(h: HeapView, ops: Seq<HeapOp>) -> bool
    decreases ops.len(),
{
    ops.len() > 0 ==> can_do_all(h, ops.drop_last()) && can_do(
        done_all(h, ops.drop_last()),
        ops.last(),
    )
}

/// As long as nothing is swept no bump pointer goes back.
pub proof fn bump_pointers_never_go_back(h: HeapView, ops: Seq<HeapOp>, i: int)
    requires
        heap_wf(h),
        can_do_all(h, ops),
        0 <= i < h.regions.len(),
    ensures
        heap_wf(done_all(h, ops)),
        done_all(h, ops).regions.len() == h.regions.len(),
        h.regions[i].offset <= done_all(h, ops).regions[i].offset <= REGION_SIZE,
    decreases ops.len(),
{
    if ops.len() == 0 {
        assert(region_wf(h.regions[i]));
    } else {
        let before = done_all(h, ops.drop_last());
        bump_pointers_never_go_back(h, ops.drop_last(), i);
        match ops.last() {
            HeapOp::Allocate { size } => alloc_only_grows(before, size, i),
            HeapOp::Write { handle, data } => write_changes_bytes_alone(before, handle, data, i),
            HeapOp::PreMark => pre_mark_changes_live_counts_alone(before, i),
            HeapOp::MarkLive { handle } => mark_live_counts_one_survivor(
                before,
                handle.region as int,
                i,
            ),
        }
    }
}

/// Two allocations with any run of operations but a sweep between them never overlap, in a heap
/// whose regions 32-bit indices can address.
pub proof fn allocations_of_a_run_are_disjoint(
    h: HeapView,
    size: nat,
    ops: Seq<HeapOp>,
    later_size: nat,
)
    requires
        heap_wf(h),
        h.regions.len() <= 0x1_0000_0000,
        heap_alloc(h, size).0 is Some,
        can_do_all(heap_alloc(h, size).1, ops),
        heap_alloc(done_all(heap_alloc(h, size).1, ops), later_size).0 is Some,
    ensures
        ({
            let a = heap_alloc(h, size).0->0;
            let b = heap_alloc(done_all(heap_alloc(h, size).1, ops), later_size).0->0;
            a.region != b.region || a.offset + size <= b.offset
        }),
{
    let first = heap_alloc(h, size).1;
    let later = done_all(first, ops);
    alloc_lies_beyond_older_bytes(h, size);
    let i = heap_alloc(h, size).0->0.region as int;
    alloc_only_grows(h, size, i);
    bump_pointers_never_go_back(first, ops, i);
    heap_allocations_are_disjoint(h, size, later, later_size);
}

/// An object keeps its bytes over every run of operations in which nothing is written into it.
pub proof fn objects_keep_their_bytes(
    h: HeapView,
    ops: Seq<HeapOp>,
    object: RegionHandle,
    len: nat,
)
    requires
        heap_wf(h),
        can_do_all(h, ops),
        object.region < h.regions.len(),
        object.offset + len <= REGION_SIZE,
        forall|k: int|
            0 <= k < ops.len() ==> ((#[trigger] ops[k]) matches HeapOp::Write { handle, data }
                ==> handle.region != object.region || handle.offset + data.len() <= object.offset
                || object.offset + len <= handle.offset),
    ensures
        done_all(h, ops).regions[object.region as int].bytes.subrange(
            object.offset as int,
            object.offset + len,
        ) == h.regions[object.region as int].bytes.subrange(
            object.offset as int,
            object.offset + len,
        ),
    decreases ops.len(),
{
    if ops.len() > 0 {
        let fewer = ops.drop_last();
        let before = done_all(h, fewer);
        let i = object.region as int;
        assert forall|k: int| 0 <= k < fewer.len() implies ((#[trigger] fewer[k])
            matches HeapOp::Write { handle, data } ==> handle.region != object.region
            || handle.offset + data.len() <= object.offset || object.offset + len
            <= handle.offset) by {
            assert(fewer[k] == ops[k]);
        }
        assert(ops[ops.len() - 1] == ops.last());
        objects_keep_their_bytes(h, fewer, object, len);
        bump_pointers_never_go_back(h, fewer, i);
        match ops.last() {
            HeapOp::Allocate { size } => alloc_only_grows(before, size, i),
            HeapOp::Write { handle, data } => heap_write_keeps_the_rest(
                before,
                handle,
                data,
                object,
                len,
            ),
            HeapOp::PreMark => pre_mark_changes_live_counts_alone(before, i),
            HeapOp::MarkLive { handle } => mark_live_counts_one_survivor(
                before,
                handle.region as int,
                i,
            ),
        }
    }
}

} // verus!
