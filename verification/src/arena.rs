//! Bump-allocating arena.
//!
//! Single-threaded and untyped: hands out 32-bit byte offsets into a
//! pre-sized backing buffer. Allocation is `O(1)` (advance the bump pointer
//! with alignment); deallocation is the entire arena at once.

use crate::align::round_up;
#[allow(unused_imports)]
use crate::align::{align_up, align_up_is_least_multiple};
#[allow(unused_imports)]
use crate::overlay::overlay;
use vstd::prelude::*;

verus! {

/// The byte offset of an allocation, kept in 32 bits.
#[derive(Copy, Clone, Debug, PartialEq, Eq, Hash, Structural)]
pub struct Handle(pub u32);

/// A fixed buffer with a bump pointer.
pub struct Arena {
    bytes: Vec<u8>,
    offset: usize,
}

/// What an [`Arena`] holds: its buffer, and how much of it has been handed out.
pub struct ArenaView {
    pub bytes: Seq<u8>,
    pub offset: nat,
}

/// Whether `size` more bytes fit behind the bump pointer, once it is aligned.
pub open spec fn arena_fits(pre: ArenaView, size: nat) -> bool {
    align_up(pre.offset) + size <= pre.bytes.len()
}

/// The handle of an allocation at byte `at`: the low 32 bits of the offset.
pub open spec fn handle_at(at: nat) -> Handle {
    Handle((at % 0x1_0000_0000) as u32)
}

/// What an allocation of `size` bytes returns and leaves behind.
pub open spec fn arena_alloc(pre: ArenaView, size: nat) -> (Option<Handle>, ArenaView) {
    if arena_fits(pre, size) {
        (
            Some(handle_at(align_up(pre.offset))),
            ArenaView { bytes: pre.bytes, offset: align_up(pre.offset) + size },
        )
    } else {
        (None, pre)
    }
}

impl View for Arena {
    type V = ArenaView;

    closed spec fn view(&self) -> ArenaView {
        ArenaView { bytes: self.bytes@, offset: self.offset as nat }
    }
}

impl Arena {
    /// The bump pointer never leaves the buffer, and the buffer is no longer than an
    /// allocation can be.
    pub open spec fn wf(&self) -> bool {
        &&& self@.offset <= self@.bytes.len()
        &&& self@.bytes.len() <= isize::MAX
    }

    /// An arena of `cap` zeroed bytes.
    pub fn with_capacity(cap: usize) -> (arena: Self)
        requires
            cap <= isize::MAX,
        ensures
            arena.wf(),
            arena@.bytes == Seq::new(cap as nat, |i: int| 0u8),
            arena@.offset == 0,
    {
        let arena = Self { bytes: vec![0u8; cap], offset: 0 };
        assert(arena@.bytes =~= Seq::new(cap as nat, |i: int| 0u8));
        arena
    }

    /// The length of the buffer.
    pub fn capacity(&self) -> (cap: usize)
        ensures
            cap == self@.bytes.len(),
    {
        self.bytes.len()
    }

    /// How many bytes lie below the bump pointer.
    pub fn used(&self) -> (used: usize)
        ensures
            used == self@.offset,
    {
        self.offset
    }

    /// Allocate `size` bytes, aligned to 8. Returns `None` on OOM.
    pub fn allocate(&mut self, size: usize) -> (handle: Option<Handle>)
        requires
            old(self).wf(),
        ensures
            final(self).wf(),
            (handle, final(self)@) == arena_alloc(old(self)@, size as nat),
            handle is Some <==> (old(self)@.offset + 7) / 8 * 8 + size <= old(self)@.bytes.len(),
            handle is Some ==> (handle->0).0 == (old(self)@.offset + 7) / 8 * 8 % 0x1_0000_0000
                && final(self)@.offset == (old(self)@.offset + 7) / 8 * 8 + size,
            handle is None ==> final(self)@ == old(self)@,
            final(self)@.bytes == old(self)@.bytes,
    {
        let aligned: usize = round_up(self.offset);
        let end: usize = match aligned.checked_add(size) {
            Some(end) => end,
            None => return None,
        };
        if end > self.bytes.len() {
            return None;
        }
        self.offset = end;
        assert(aligned as u32 == (aligned as u64) % 0x1_0000_0000u64) by (bit_vector);
        Some(Handle(aligned as u32))
    }

    /// Copies `data` into the buffer, from `h` on.
    pub fn write(&mut self, h: Handle, data: &[u8])
        requires
            old(self).wf(),
            h.0 + data@.len() <= old(self)@.bytes.len(),
        ensures
            final(self).wf(),
            final(self)@.bytes == overlay(old(self)@.bytes, h.0 as int, data@),
            final(self)@.offset == old(self)@.offset,
    {
        let start: usize = h.0 as usize;
        let mut i: usize = 0;
        while i < data.len()
            invariant
                i <= data@.len(),
                start == h.0,
                start + data@.len() <= self.bytes@.len() <= isize::MAX,
                self.offset == old(self).offset,
                self.bytes@ == overlay(old(self).bytes@, start as int, data@.take(i as int)),
            decreases data@.len() - i,
        {
            self.bytes[start + i] = data[i];
            i = i + 1;
            assert(self.bytes@ =~= overlay(old(self).bytes@, start as int, data@.take(i as int)));
        }
        assert(data@.take(i as int) =~= data@);
    }

    /// The `len` bytes of the buffer from `h` on.
    pub fn read(&self, h: Handle, len: usize) -> (data: &[u8])
        requires
            h.0 + len <= self@.bytes.len(),
        ensures
            data@ == self@.bytes.subrange(h.0 as int, h.0 + len),
    {
        let start: usize = h.0 as usize;
        assert(self.bytes@.len() == self.bytes.len());
        &self.bytes[start..start + len]
    }

    /// Reset the bump pointer. All outstanding handles are invalidated; the
    /// caller is responsible for not using them.
    pub fn reset(&mut self)
        requires
            old(self).wf(),
        ensures
            final(self).wf(),
            final(self)@.bytes == old(self)@.bytes,
            final(self)@.offset == 0,
    {
        self.offset = 0;
    }
}

/// Every handle is a multiple of 8.
pub proof fn arena_handles_are_aligned(pre: ArenaView, size: nat)
    ensures
        arena_alloc(pre, size).0 matches Some(h) ==> h.0 % 8 == 0,
{
    align_up_is_least_multiple(pre.offset, 0);
    let at = align_up(pre.offset);
    assert((at % 0x1_0000_0000) % 8 == 0);
}

/// An allocation takes bytes beyond the bump pointer only, leaves the buffer as it is, and
/// moves the pointer behind what it took; one that fails changes nothing.
pub proof fn arena_alloc_only_grows(pre: ArenaView, size: nat)
    ensures
        arena_alloc(pre, size).1.bytes == pre.bytes,
        pre.offset <= arena_alloc(pre, size).1.offset,
        arena_alloc(pre, size).0 is None ==> arena_alloc(pre, size).1 == pre,
        pre.offset <= pre.bytes.len() ==> arena_alloc(pre, size).1.offset <= pre.bytes.len(),
{
    align_up_is_least_multiple(pre.offset, 0);
}

/// Two allocations with no reset between them never overlap, and both lie in the buffer.
/// `later` is the arena at the second one: its bump pointer has not gone back. 32-bit offsets
/// can address where both start.
pub proof fn arena_allocations_are_disjoint(
    pre: ArenaView,
    size: nat,
    later: ArenaView,
    later_size: nat,
)
    requires
        pre.bytes.len() <= 0x1_0000_0000,
        later.bytes.len() == pre.bytes.len(),
        later_size > 0 || pre.bytes.len() < 0x1_0000_0000,
        arena_alloc(pre, size).0 is Some,
        arena_alloc(pre, size).1.offset <= later.offset,
        arena_alloc(later, later_size).0 is Some,
    ensures
        ({
            let h = arena_alloc(pre, size).0->0;
            let l = arena_alloc(later, later_size).0->0;
            &&& h.0 + size <= l.0
            &&& l.0 + later_size <= pre.bytes.len()
        }),
{
    align_up_is_least_multiple(pre.offset, 0);
    align_up_is_least_multiple(later.offset, 0);
}

/// After a reset the whole buffer can be allocated again, from its first byte on.
pub proof fn arena_reset_frees_all(pre: ArenaView, size: nat)
    requires
        size <= pre.bytes.len(),
    ensures
        arena_alloc(ArenaView { offset: 0, ..pre }, size) == (
            Some(Handle(0)),
            ArenaView { offset: size, ..pre },
        ),
{
}

/// An allocation succeeds exactly if the next multiple of 8 leaves room for it, wherever the bump
/// pointer stands. It lies at that multiple, the pointer moves to its end, and nothing else
/// changes.
pub proof fn arena_serves_exactly_what_fits(pre: ArenaView, size: nat)
    ensures
        ({
            let at = (pre.offset + 7) / 8 * 8;
            let (handle, post) = arena_alloc(pre, size);
            &&& handle is Some <==> at + size <= pre.bytes.len()
            &&& handle is Some ==> (handle->0).0 == at % 0x1_0000_0000 && post.offset == at + size
            &&& handle is None ==> post.offset == pre.offset
            &&& post.bytes == pre.bytes
        }),
{
}

/// What a larger request gets, a smaller one gets too, at the same place; and what is left after
/// an allocation is what was there before less what it took.
pub proof fn arena_room_is_what_is_left(pre: ArenaView, size: nat, less: nat, next: nat)
    requires
        less <= size,
        arena_alloc(pre, size).0 is Some,
    ensures
        arena_alloc(pre, less).0 == arena_alloc(pre, size).0,
        arena_alloc(arena_alloc(pre, size).1, next).0 is Some <==> ((pre.offset + 7) / 8 * 8 + size
            + 7) / 8 * 8 + next <= pre.bytes.len(),
        pre.offset % 8 == 0 && size % 8 == 0 ==> (arena_alloc(
            arena_alloc(pre, size).1,
            next,
        ).0 is Some <==> arena_alloc(pre, size + next).0 is Some),
{
}

} // verus!
