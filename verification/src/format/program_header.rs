//! Program headers: the 56-byte little-endian records describing an
//! object's segments, in loader view.

use vstd::prelude::*;
use core::ops::Range;
use crate::le::{le32, le64, read_u32, read_u64, push_u32, push_u64};
use crate::error::PixieError;

verus! {

/// The type of a segment.
#[derive(Clone, Copy, Debug, PartialEq, Eq, Structural)]
pub enum SegmentType {
    Null,
    Load,
    Dynamic,
    Interp,
    Tls,
    GnuStack,
    Other(u32),
}

impl SegmentType {
    /// The code this segment type is stored as.
    pub open spec fn spec_code(self) -> u32 {
        match self {
            SegmentType::Null => 0,
            SegmentType::Load => 1,
            SegmentType::Dynamic => 2,
            SegmentType::Interp => 3,
            SegmentType::Tls => 7,
            SegmentType::GnuStack => 0x6474e551,
            SegmentType::Other(x) => x,
        }
    }

    /// The segment type a stored code stands for.
    pub open spec fn spec_of(x: u32) -> SegmentType {
        if x == 0 {
            SegmentType::Null
        } else if x == 1 {
            SegmentType::Load
        } else if x == 2 {
            SegmentType::Dynamic
        } else if x == 3 {
            SegmentType::Interp
        } else if x == 7 {
            SegmentType::Tls
        } else if x == 0x6474e551 {
            SegmentType::GnuStack
        } else {
            SegmentType::Other(x)
        }
    }

    pub fn code(self) -> (r: u32)
        ensures
            r == self.spec_code(),
    {
        match self {
            SegmentType::Null => 0,
            SegmentType::Load => 1,
            SegmentType::Dynamic => 2,
            SegmentType::Interp => 3,
            SegmentType::Tls => 7,
            SegmentType::GnuStack => 0x6474e551,
            SegmentType::Other(x) => x,
        }
    }

    pub fn of(x: u32) -> (r: SegmentType)
        ensures
            r == SegmentType::spec_of(x),
    {
        if x == 0 {
            SegmentType::Null
        } else if x == 1 {
            SegmentType::Load
        } else if x == 2 {
            SegmentType::Dynamic
        } else if x == 3 {
            SegmentType::Interp
        } else if x == 7 {
            SegmentType::Tls
        } else if x == 0x6474e551 {
            SegmentType::GnuStack
        } else {
            SegmentType::Other(x)
        }
    }
}

/// A program header: the loader's view of one segment.
#[derive(Clone, Copy, Debug, PartialEq, Eq, Structural)]
pub struct ProgramHeader {
    pub typ: SegmentType,
    pub flags: u32,
    pub offset: u64,
    pub vaddr: u64,
    pub paddr: u64,
    pub file_size: u64,
    pub mem_size: u64,
    pub align: u64,
}

/// The program header stored at byte offset `off` of `s`, field by field.
pub open spec fn spec_program_header(s: Seq<u8>, off: int) -> ProgramHeader {
    ProgramHeader {
        typ: SegmentType::spec_of(le32(s, off)),
        flags: le32(s, off + 4),
        offset: le64(s, off + 8),
        vaddr: le64(s, off + 16),
        paddr: le64(s, off + 24),
        file_size: le64(s, off + 32),
        mem_size: le64(s, off + 40),
        align: le64(s, off + 48),
    }
}

impl ProgramHeader {
    /// The record's stored size in bytes.
    pub open spec fn spec_size() -> u16 {
        56
    }

    pub const SIZE: u16 = 56;

    pub const EXECUTE: u32 = 1;
    pub const WRITE: u32 = 2;
    pub const READ: u32 = 4;

    /// The file range this header covers, as a mathematical range.
    pub open spec fn spec_file_range(self) -> Range<int> {
        Range { start: self.offset as int, end: self.offset + self.file_size }
    }

    /// The memory range this header covers, as a mathematical range.
    pub open spec fn spec_mem_range(self) -> Range<int> {
        Range { start: self.vaddr as int, end: self.vaddr + self.mem_size }
    }

    /// The byte range this segment occupies in the file.
    pub fn file_range(&self) -> (r: Range<u64>)
        requires
            self.offset + self.file_size <= u64::MAX,
        ensures
            r.start == self.offset,
            r.end == self.offset + self.file_size,
    {
        Range { start: self.offset, end: self.offset + self.file_size }
    }

    /// The virtual-address range this segment occupies in memory.
    pub fn mem_range(&self) -> (r: Range<u64>)
        requires
            self.vaddr + self.mem_size <= u64::MAX,
        ensures
            r.start == self.vaddr,
            r.end == self.vaddr + self.mem_size,
    {
        Range { start: self.vaddr, end: self.vaddr + self.mem_size }
    }

    /// Parse the program header stored at offset `off` of `buf`.
    ///
    /// Succeeds exactly when the 56-byte record lies inside the buffer.
    pub fn parse_at(buf: &[u8], off: usize) -> (r: Result<ProgramHeader, PixieError>)
        ensures
            r is Ok <==> off + 56 <= buf@.len(),
            r is Ok ==> r->Ok_0 == spec_program_header(buf@, off as int),
            r is Err ==> r->Err_0 == PixieError::ProgramHeaderOutOfBounds,
    {
        if buf.len() < 56 || off > buf.len() - 56 {
            return Err(PixieError::ProgramHeaderOutOfBounds);
        }
        Ok(ProgramHeader {
            typ: SegmentType::of(read_u32(buf, off)),
            flags: read_u32(buf, off + 4),
            offset: read_u64(buf, off + 8),
            vaddr: read_u64(buf, off + 16),
            paddr: read_u64(buf, off + 24),
            file_size: read_u64(buf, off + 32),
            mem_size: read_u64(buf, off + 40),
            align: read_u64(buf, off + 48),
        })
    }

    /// Append the header's 56-byte encoding to `out`.
    ///
    /// Each field is stored little-endian at its fixed offset, so that
    /// parsing the written bytes yields back each field's stored code.
    pub fn write_to(&self, out: &mut Vec<u8>)
        ensures
            final(out)@.len() == old(out)@.len() + 56,
            final(out)@.subrange(0, old(out)@.len() as int) == old(out)@,
            spec_program_header(final(out)@, old(out)@.len() as int) == (ProgramHeader {
                typ: SegmentType::spec_of(self.typ.spec_code()),
                ..*self
            }),
    {
        let ghost base = out@.len() as int;
        push_u32(out, self.typ.code());
        push_u32(out, self.flags);
        push_u64(out, self.offset);
        push_u64(out, self.vaddr);
        push_u64(out, self.paddr);
        push_u64(out, self.file_size);
        push_u64(out, self.mem_size);
        push_u64(out, self.align);
        proof {
            let s = out@;
            assert(out@.subrange(0, base) =~= old(out)@);
            vstd::bytes::lemma_auto_spec_u32_to_from_le_bytes();
            vstd::bytes::lemma_auto_spec_u64_to_from_le_bytes();
            assert(s.subrange(base, base + 4) =~= vstd::bytes::spec_u32_to_le_bytes(self.typ.spec_code()));
            assert(s.subrange(base + 4, base + 8) =~= vstd::bytes::spec_u32_to_le_bytes(self.flags));
            assert(s.subrange(base + 8, base + 16) =~= vstd::bytes::spec_u64_to_le_bytes(self.offset));
            assert(s.subrange(base + 16, base + 24) =~= vstd::bytes::spec_u64_to_le_bytes(self.vaddr));
            assert(s.subrange(base + 24, base + 32) =~= vstd::bytes::spec_u64_to_le_bytes(self.paddr));
            assert(s.subrange(base + 32, base + 40) =~= vstd::bytes::spec_u64_to_le_bytes(self.file_size));
            assert(s.subrange(base + 40, base + 48) =~= vstd::bytes::spec_u64_to_le_bytes(self.mem_size));
            assert(s.subrange(base + 48, base + 56) =~= vstd::bytes::spec_u64_to_le_bytes(self.align));
        }
    }
}

/// A program header parsed out of a preserved prefix stays the same when
/// bytes are appended after the prefix.
pub proof fn lemma_ph_prefix(s1: Seq<u8>, s2: Seq<u8>, off: int)
    requires
        0 <= off,
        off + 56 <= s1.len(),
        s1.len() <= s2.len(),
        s2.subrange(0, s1.len() as int) == s1,
    ensures
        spec_program_header(s2, off) == spec_program_header(s1, off),
{
    crate::le::lemma_le32_prefix(s1, s2, off);
    crate::le::lemma_le32_prefix(s1, s2, off + 4);
    crate::le::lemma_le64_prefix(s1, s2, off + 8);
    crate::le::lemma_le64_prefix(s1, s2, off + 16);
    crate::le::lemma_le64_prefix(s1, s2, off + 24);
    crate::le::lemma_le64_prefix(s1, s2, off + 32);
    crate::le::lemma_le64_prefix(s1, s2, off + 40);
    crate::le::lemma_le64_prefix(s1, s2, off + 48);
}

} // verus!
