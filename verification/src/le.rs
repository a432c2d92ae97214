//! Bounds-checked little-endian field access over byte buffers.
//!
//! Every multi-byte field of the binary formats is read and written through
//! these helpers; no buffer is ever reinterpreted as a native struct.

use vstd::prelude::*;
use vstd::bytes::{
    spec_u16_from_le_bytes, spec_u32_from_le_bytes, spec_u64_from_le_bytes,
    spec_u16_to_le_bytes, spec_u32_to_le_bytes, spec_u64_to_le_bytes,
    u16_from_le_bytes, u32_from_le_bytes, u64_from_le_bytes,
    u16_to_le_bytes, u32_to_le_bytes, u64_to_le_bytes,
    lemma_auto_spec_u16_to_from_le_bytes, lemma_auto_spec_u32_to_from_le_bytes,
    lemma_auto_spec_u64_to_from_le_bytes,
};
use vstd::slice::slice_subrange;

verus! {

/// The `u16` stored little-endian at byte offset `off` of `s`.
pub open spec fn le16(s: Seq<u8>, off: int) -> u16 {
    spec_u16_from_le_bytes(s.subrange(off, off + 2))
}

/// The `u32` stored little-endian at byte offset `off` of `s`.
pub open spec fn le32(s: Seq<u8>, off: int) -> u32 {
    spec_u32_from_le_bytes(s.subrange(off, off + 4))
}

/// The `u64` stored little-endian at byte offset `off` of `s`.
pub open spec fn le64(s: Seq<u8>, off: int) -> u64 {
    spec_u64_from_le_bytes(s.subrange(off, off + 8))
}

/// Read the `u16` stored little-endian at offset `off`.
pub fn read_u16(buf: &[u8], off: usize) -> (r: u16)
    requires
        off + 2 <= buf@.len(),
    ensures
        r == le16(buf@, off as int),
{
    let n = buf.len();
    let s = slice_subrange(buf, off, off + 2);
    proof {
        assert(off + 2 <= n);
    }
    u16_from_le_bytes(s)
}

/// Read the `u32` stored little-endian at offset `off`.
pub fn read_u32(buf: &[u8], off: usize) -> (r: u32)
    requires
        off + 4 <= buf@.len(),
    ensures
        r == le32(buf@, off as int),
{
    let n = buf.len();
    let s = slice_subrange(buf, off, off + 4);
    proof {
        assert(off + 4 <= n);
    }
    u32_from_le_bytes(s)
}

/// Read the `u64` stored little-endian at offset `off`.
pub fn read_u64(buf: &[u8], off: usize) -> (r: u64)
    requires
        off + 8 <= buf@.len(),
    ensures
        r == le64(buf@, off as int),
{
    let n = buf.len();
    let s = slice_subrange(buf, off, off + 8);
    proof {
        assert(off + 8 <= n);
    }
    u64_from_le_bytes(s)
}

/// Append `x` to `out` as two little-endian bytes.
pub fn push_u16(out: &mut Vec<u8>, x: u16)
    ensures
        final(out)@ == old(out)@ + spec_u16_to_le_bytes(x),
        final(out)@.len() == old(out)@.len() + 2,
        le16(final(out)@, old(out)@.len() as int) == x,
{
    proof {
        lemma_auto_spec_u16_to_from_le_bytes();
    }
    let mut bytes = u16_to_le_bytes(x);
    let ghost prefix = out@;
    out.append(&mut bytes);
    proof {
        assert(out@.subrange(prefix.len() as int, prefix.len() as int + 2) =~= spec_u16_to_le_bytes(x));
    }
}

/// Append `x` to `out` as four little-endian bytes.
pub fn push_u32(out: &mut Vec<u8>, x: u32)
    ensures
        final(out)@ == old(out)@ + spec_u32_to_le_bytes(x),
        final(out)@.len() == old(out)@.len() + 4,
        le32(final(out)@, old(out)@.len() as int) == x,
{
    proof {
        lemma_auto_spec_u32_to_from_le_bytes();
    }
    let mut bytes = u32_to_le_bytes(x);
    let ghost prefix = out@;
    out.append(&mut bytes);
    proof {
        assert(out@.subrange(prefix.len() as int, prefix.len() as int + 4) =~= spec_u32_to_le_bytes(x));
    }
}

/// Append `x` to `out` as eight little-endian bytes.
pub fn push_u64(out: &mut Vec<u8>, x: u64)
    ensures
        final(out)@ == old(out)@ + spec_u64_to_le_bytes(x),
        final(out)@.len() == old(out)@.len() + 8,
        le64(final(out)@, old(out)@.len() as int) == x,
{
    proof {
        lemma_auto_spec_u64_to_from_le_bytes();
    }
    let mut bytes = u64_to_le_bytes(x);
    let ghost prefix = out@;
    out.append(&mut bytes);
    proof {
        assert(out@.subrange(prefix.len() as int, prefix.len() as int + 8) =~= spec_u64_to_le_bytes(x));
    }
}

/// Write `x` little-endian into the eight bytes of `buf` at `off`, leaving
/// every other byte as it was.
pub fn store_u64(buf: &mut Vec<u8>, off: usize, x: u64)
    requires
        off + 8 <= old(buf)@.len(),
    ensures
        final(buf)@.len() == old(buf)@.len(),
        le64(final(buf)@, off as int) == x,
        final(buf)@ == old(buf)@
            .subrange(0, off as int)
            + spec_u64_to_le_bytes(x)
            + old(buf)@.subrange(off + 8, old(buf)@.len() as int),
        forall|i: int| 0 <= i < old(buf)@.len() && !(off <= i < off + 8)
            ==> final(buf)@[i] == old(buf)@[i],
{
    proof {
        lemma_auto_spec_u64_to_from_le_bytes();
    }
    let bytes = u64_to_le_bytes(x);
    let ghost orig = buf@;
    let mut i: usize = 0;
    while i < 8
        invariant
            0 <= i <= 8,
            off + 8 <= orig.len(),
            buf@.len() == orig.len(),
            bytes@ == spec_u64_to_le_bytes(x),
            bytes@.len() == 8,
            forall|j: int| 0 <= j < orig.len() && !(off <= j < off + i)
                ==> buf@[j] == orig[j],
            forall|j: int| 0 <= j < i ==> buf@[off + j] == bytes@[j],
        decreases 8 - i,
    {
        let n = buf.len();
        proof {
            assert(off + i < n);
        }
        buf[off + i] = bytes[i];
        i += 1;
    }
    proof {
        assert(buf@.subrange(off as int, off + 8) =~= spec_u64_to_le_bytes(x));
        assert(buf@ =~= orig.subrange(0, off as int)
            + spec_u64_to_le_bytes(x)
            + orig.subrange(off + 8, orig.len() as int));
    }
}

/// A record window inside a preserved prefix decodes unchanged when bytes
/// are appended after the prefix.
pub proof fn lemma_le16_prefix(s1: Seq<u8>, s2: Seq<u8>, off: int)
    requires
        0 <= off,
        off + 2 <= s1.len(),
        s1.len() <= s2.len(),
        s2.subrange(0, s1.len() as int) == s1,
    ensures
        le16(s2, off) == le16(s1, off),
{
    assert forall|i: int| 0 <= i < s1.len() implies s2[i] == s1[i] by {
        assert(s2.subrange(0, s1.len() as int)[i] == s2[i]);
    }
    assert(s2.subrange(off, off + 2) =~= s1.subrange(off, off + 2));
}

/// A record window inside a preserved prefix decodes unchanged when bytes
/// are appended after the prefix.
pub proof fn lemma_le32_prefix(s1: Seq<u8>, s2: Seq<u8>, off: int)
    requires
        0 <= off,
        off + 4 <= s1.len(),
        s1.len() <= s2.len(),
        s2.subrange(0, s1.len() as int) == s1,
    ensures
        le32(s2, off) == le32(s1, off),
{
    assert forall|i: int| 0 <= i < s1.len() implies s2[i] == s1[i] by {
        assert(s2.subrange(0, s1.len() as int)[i] == s2[i]);
    }
    assert(s2.subrange(off, off + 4) =~= s1.subrange(off, off + 4));
}

/// A record window inside a preserved prefix decodes unchanged when bytes
/// are appended after the prefix.
pub proof fn lemma_le64_prefix(s1: Seq<u8>, s2: Seq<u8>, off: int)
    requires
        0 <= off,
        off + 8 <= s1.len(),
        s1.len() <= s2.len(),
        s2.subrange(0, s1.len() as int) == s1,
    ensures
        le64(s2, off) == le64(s1, off),
{
    assert forall|i: int| 0 <= i < s1.len() implies s2[i] == s1[i] by {
        assert(s2.subrange(0, s1.len() as int)[i] == s2[i]);
    }
    assert(s2.subrange(off, off + 8) =~= s1.subrange(off, off + 8));
}

/// Prefix preservation composes: when `b` preserves `a` and `c`
/// preserves `b`, `c` preserves `a`.
pub proof fn lemma_prefix_trans(a: Seq<u8>, b: Seq<u8>, c: Seq<u8>)
    requires
        a.len() <= b.len(),
        b.len() <= c.len(),
        b.subrange(0, a.len() as int) == a,
        c.subrange(0, b.len() as int) == b,
    ensures
        c.subrange(0, a.len() as int) == a,
{
    assert forall|q: int| 0 <= q < a.len()
        implies c.subrange(0, a.len() as int)[q] == a[q] by {
        assert(c.subrange(0, b.len() as int)[q] == b[q]);
        assert(b.subrange(0, a.len() as int)[q] == a[q]);
    }
    assert(c.subrange(0, a.len() as int) =~= a);
}

/// Any window inside a preserved prefix reads back unchanged.
pub proof fn lemma_subwindow_prefix(b: Seq<u8>, c: Seq<u8>, lo: int, hi: int)
    requires
        0 <= lo <= hi,
        hi <= b.len(),
        b.len() <= c.len(),
        c.subrange(0, b.len() as int) == b,
    ensures
        c.subrange(lo, hi) == b.subrange(lo, hi),
{
    assert forall|q: int| 0 <= q < hi - lo
        implies c.subrange(lo, hi)[q] == b.subrange(lo, hi)[q] by {
        assert(c.subrange(0, b.len() as int)[lo + q] == b[lo + q]);
    }
    assert(c.subrange(lo, hi) =~= b.subrange(lo, hi));
}

} // verus!
