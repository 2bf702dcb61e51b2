//! Rounding of bump pointers to the allocation granule.

use vstd::prelude::*;

verus! {

/// Every allocation starts at a multiple of this many bytes.
pub const ALIGN: usize = 8;

/// The least multiple of [`ALIGN`] that is not below `offset`.
pub open spec fn align_up(offset: nat) -> nat {
    (offset + 7) / 8 * 8
}

/// Rounds `offset` up to the next multiple of [`ALIGN`].
pub fn round_up(offset: usize) -> (aligned: usize)
    requires
        offset + 7 <= usize::MAX,
    ensures
        aligned == align_up(offset as nat),
        aligned % 8 == 0,
        offset <= aligned < offset + 8,
{
    let raised: usize = offset + (ALIGN - 1);
    assert(raised & !7usize == raised / 8 * 8) by (bit_vector);
    assert(!7usize == !((ALIGN - 1) as usize));
    raised & !(ALIGN - 1)
}

/// Rounding up lands on a multiple of [`ALIGN`], not below the offset, and on no later
/// multiple than it must.
pub proof fn align_up_is_least_multiple(offset: nat, multiple: nat)
    ensures
        align_up(offset) % 8 == 0,
        offset <= align_up(offset) < offset + 8,
        multiple % 8 == 0 && offset <= multiple ==> align_up(offset) <= multiple,
{
}

/// Rounding up in numbers, for every offset.
pub proof fn align_up_in_numbers(offset: nat)
    ensures
        align_up(offset) == (offset + 7) / 8 * 8,
        offset % 8 == 0 ==> align_up(offset) == offset,
        align_up(offset + 8) == align_up(offset) + 8,
{
}

} // verus!
