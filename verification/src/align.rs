//! Alignment of addresses and address ranges to the 4 KiB page size.

use vstd::prelude::*;
use core::ops::Range;

verus! {

/// The page size every mapping and file layout is aligned to.
pub const PAGE_SIZE: u64 = 0x1000;

/// `val` rounded down to a page boundary, as a mathematical value.
pub open spec fn spec_floor(val: u64) -> u64 {
    (val - (val as int % 0x1000)) as u64
}

/// `val` rounded up to a page boundary, as a mathematical value.
pub open spec fn spec_ceil(val: u64) -> int {
    if val as int % 0x1000 == 0 {
        val as int
    } else {
        spec_floor(val) + 0x1000
    }
}

/// Align *down* to the nearest 4 KiB boundary.
pub fn floor(val: u64) -> (r: u64)
    ensures
        r == spec_floor(val),
        r <= val,
        r as int % 0x1000 == 0,
{
    proof {
        assert((val & !0xFFFu64) == (val - (val as u64 % 0x1000)) as u64) by (bit_vector);
    }
    val & !0xFFF
}

/// Align *up* to the nearest 4 KiB boundary.
///
/// The result is returned as an address; the caller must ensure the rounded
/// value still fits in 64 bits.
pub fn ceil(val: u64) -> (r: u64)
    requires
        spec_ceil(val) <= u64::MAX,
    ensures
        r == spec_ceil(val),
        val <= r,
        r as int % 0x1000 == 0,
{
    let f = floor(val);
    if f == val {
        val
    } else {
        f + 0x1000
    }
}

/// Given a convex hull, align its start *down* and its end *up* to the
/// nearest 4 KiB boundary.
pub fn align_hull(hull: Range<u64>) -> (r: Range<u64>)
    requires
        spec_ceil(hull.end) <= u64::MAX,
    ensures
        r.start == spec_floor(hull.start),
        r.end == spec_ceil(hull.end),
        r.start <= hull.start,
        hull.end <= r.end,
{
    Range { start: floor(hull.start), end: ceil(hull.end) }
}

} // verus!
