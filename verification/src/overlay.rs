//! Overwriting part of a byte buffer.

use vstd::prelude::*;

verus! {

/// `bytes` with `data` laid over it from index `start` on.
pub open spec fn overlay(bytes: Seq<u8>, start: int, data: Seq<u8>) -> Seq<u8> {
    Seq::new(
        bytes.len(),
        |i: int|
            if start <= i < start + data.len() {
                data[i - start]
            } else {
                bytes[i]
            },
    )
}

/// What was written is what a read of the same place gives back.
pub proof fn overlay_reads_back(bytes: Seq<u8>, start: int, data: Seq<u8>)
    requires
        0 <= start,
        start + data.len() <= bytes.len(),
    ensures
        overlay(bytes, start, data).subrange(start, start + data.len()) == data,
{
    assert(overlay(bytes, start, data).subrange(start, start + data.len()) =~= data);
}

/// A read of any place that the write did not touch gives what it gave before.
pub proof fn overlay_keeps_the_rest(bytes: Seq<u8>, start: int, data: Seq<u8>, from: int, to: int)
    requires
        0 <= start,
        start + data.len() <= bytes.len(),
        0 <= from <= to <= bytes.len(),
        to <= start || start + data.len() <= from,
    ensures
        overlay(bytes, start, data).len() == bytes.len(),
        overlay(bytes, start, data).subrange(from, to) == bytes.subrange(from, to),
{
    assert(overlay(bytes, start, data).subrange(from, to) =~= bytes.subrange(from, to));
}

} // verus!
