//! The ELF object header: a 64-byte little-endian record at the start of
//! every object file.

use vstd::prelude::*;
use crate::le::{le16, le32, le64, read_u16, read_u32, read_u64, push_u16, push_u32, push_u64};
use crate::error::PixieError;

verus! {

/// Identifies an object as 32-bit or 64-bit.
#[derive(Clone, Copy, Debug, PartialEq, Eq, Structural)]
pub enum ElfClass {
    Elf32,
    Elf64,
    Other(u8),
}

impl ElfClass {
    /// The code this class is stored as.
    pub open spec fn spec_code(self) -> u8 {
        match self {
            ElfClass::Elf32 => 1,
            ElfClass::Elf64 => 2,
            ElfClass::Other(x) => x,
        }
    }

    /// The class a stored code stands for.
    pub open spec fn spec_of(x: u8) -> ElfClass {
        if x == 1 {
            ElfClass::Elf32
        } else if x == 2 {
            ElfClass::Elf64
        } else {
            ElfClass::Other(x)
        }
    }

    pub fn code(self) -> (r: u8)
        ensures
            r == self.spec_code(),
    {
        match self {
            ElfClass::Elf32 => 1,
            ElfClass::Elf64 => 2,
            ElfClass::Other(x) => x,
        }
    }

    pub fn of(x: u8) -> (r: ElfClass)
        ensures
            r == ElfClass::spec_of(x),
    {
        if x == 1 {
            ElfClass::Elf32
        } else if x == 2 {
            ElfClass::Elf64
        } else {
            ElfClass::Other(x)
        }
    }
}

/// The byte order the object's fields are stored in.
#[derive(Clone, Copy, Debug, PartialEq, Eq, Structural)]
pub enum Endianness {
    Little,
    Big,
    Other(u8),
}

impl Endianness {
    /// The code this endianness is stored as.
    pub open spec fn spec_code(self) -> u8 {
        match self {
            Endianness::Little => 1,
            Endianness::Big => 2,
            Endianness::Other(x) => x,
        }
    }

    /// The endianness a stored code stands for.
    pub open spec fn spec_of(x: u8) -> Endianness {
        if x == 1 {
            Endianness::Little
        } else if x == 2 {
            Endianness::Big
        } else {
            Endianness::Other(x)
        }
    }

    pub fn code(self) -> (r: u8)
        ensures
            r == self.spec_code(),
    {
        match self {
            Endianness::Little => 1,
            Endianness::Big => 2,
            Endianness::Other(x) => x,
        }
    }

    pub fn of(x: u8) -> (r: Endianness)
        ensures
            r == Endianness::spec_of(x),
    {
        if x == 1 {
            Endianness::Little
        } else if x == 2 {
            Endianness::Big
        } else {
            Endianness::Other(x)
        }
    }
}

/// The OS ABI the object was built for.
#[derive(Clone, Copy, Debug, PartialEq, Eq, Structural)]
pub enum OsAbi {
    SysV,
    Other(u8),
}

impl OsAbi {
    /// The code this ABI is stored as.
    pub open spec fn spec_code(self) -> u8 {
        match self {
            OsAbi::SysV => 0,
            OsAbi::Other(x) => x,
        }
    }

    /// The ABI a stored code stands for.
    pub open spec fn spec_of(x: u8) -> OsAbi {
        if x == 0 {
            OsAbi::SysV
        } else {
            OsAbi::Other(x)
        }
    }

    pub fn code(self) -> (r: u8)
        ensures
            r == self.spec_code(),
    {
        match self {
            OsAbi::SysV => 0,
            OsAbi::Other(x) => x,
        }
    }

    pub fn of(x: u8) -> (r: OsAbi)
        ensures
            r == OsAbi::spec_of(x),
    {
        if x == 0 {
            OsAbi::SysV
        } else {
            OsAbi::Other(x)
        }
    }
}

/// The machine architecture the object's code targets.
#[derive(Clone, Copy, Debug, PartialEq, Eq, Structural)]
pub enum ElfMachine {
    X86,
    X86_64,
    Other(u16),
}

impl ElfMachine {
    /// The code this machine is stored as.
    pub open spec fn spec_code(self) -> u16 {
        match self {
            ElfMachine::X86 => 0x03,
            ElfMachine::X86_64 => 0x3e,
            ElfMachine::Other(x) => x,
        }
    }

    /// The machine a stored code stands for.
    pub open spec fn spec_of(x: u16) -> ElfMachine {
        if x == 0x03 {
            ElfMachine::X86
        } else if x == 0x3e {
            ElfMachine::X86_64
        } else {
            ElfMachine::Other(x)
        }
    }

    pub fn code(self) -> (r: u16)
        ensures
            r == self.spec_code(),
    {
        match self {
            ElfMachine::X86 => 0x03,
            ElfMachine::X86_64 => 0x3e,
            ElfMachine::Other(x) => x,
        }
    }

    pub fn of(x: u16) -> (r: ElfMachine)
        ensures
            r == ElfMachine::spec_of(x),
    {
        if x == 0x03 {
            ElfMachine::X86
        } else if x == 0x3e {
            ElfMachine::X86_64
        } else {
            ElfMachine::Other(x)
        }
    }
}

/// Whether the object is a fixed-position executable or a
/// position-independent one.
#[derive(Clone, Copy, Debug, PartialEq, Eq, Structural)]
pub enum ElfType {
    Exec,
    Dyn,
    Other(u16),
}

impl ElfType {
    /// The code this object type is stored as.
    pub open spec fn spec_code(self) -> u16 {
        match self {
            ElfType::Exec => 2,
            ElfType::Dyn => 3,
            ElfType::Other(x) => x,
        }
    }

    /// The object type a stored code stands for.
    pub open spec fn spec_of(x: u16) -> ElfType {
        if x == 2 {
            ElfType::Exec
        } else if x == 3 {
            ElfType::Dyn
        } else {
            ElfType::Other(x)
        }
    }

    pub fn code(self) -> (r: u16)
        ensures
            r == self.spec_code(),
    {
        match self {
            ElfType::Exec => 2,
            ElfType::Dyn => 3,
            ElfType::Other(x) => x,
        }
    }

    pub fn of(x: u16) -> (r: ElfType)
        ensures
            r == ElfType::spec_of(x),
    {
        if x == 2 {
            ElfType::Exec
        } else if x == 3 {
            ElfType::Dyn
        } else {
            ElfType::Other(x)
        }
    }
}

/// An ELF object header.
#[derive(Clone, Copy, Debug, PartialEq, Eq, Structural)]
pub struct ObjectHeader {
    pub class: ElfClass,
    pub endianness: Endianness,
    /// Always 1.
    pub version: u8,
    pub os_abi: OsAbi,
    pub typ: ElfType,
    pub machine: ElfMachine,
    /// Always 1.
    pub version_bis: u32,
    pub entry_point: u64,
    pub ph_offset: u64,
    pub sh_offset: u64,
    pub flags: u32,
    pub hdr_size: u16,
    pub ph_entsize: u16,
    pub ph_count: u16,
    pub sh_entsize: u16,
    pub sh_count: u16,
    pub sh_nidx: u16,
}

/// True when `s` starts with the four ELF magic bytes.
pub open spec fn spec_magic_ok(s: Seq<u8>) -> bool {
    &&& s.len() >= 4
    &&& s[0] == 0x7f
    &&& s[1] == 0x45
    &&& s[2] == 0x4c
    &&& s[3] == 0x46
}

/// The header stored in the first 64 bytes of `s`, field by field.
pub open spec fn spec_header(s: Seq<u8>) -> ObjectHeader {
    ObjectHeader {
        class: ElfClass::spec_of(s[4]),
        endianness: Endianness::spec_of(s[5]),
        version: s[6],
        os_abi: OsAbi::spec_of(s[7]),
        typ: ElfType::spec_of(le16(s, 16)),
        machine: ElfMachine::spec_of(le16(s, 18)),
        version_bis: le32(s, 20),
        entry_point: le64(s, 24),
        ph_offset: le64(s, 32),
        sh_offset: le64(s, 40),
        flags: le32(s, 48),
        hdr_size: le16(s, 52),
        ph_entsize: le16(s, 54),
        ph_count: le16(s, 56),
        sh_entsize: le16(s, 58),
        sh_count: le16(s, 60),
        sh_nidx: le16(s, 62),
    }
}

impl ObjectHeader {
    /// The header's stored size in bytes.
    pub open spec fn spec_size() -> u16 {
        64
    }

    pub const SIZE: u16 = 64;

    /// Parse the header from the front of `buf`.
    ///
    /// Succeeds exactly when the buffer holds at least 64 bytes and starts
    /// with the ELF magic.
    pub fn parse(buf: &[u8]) -> (r: Result<ObjectHeader, PixieError>)
        ensures
            r is Ok <==> (buf@.len() >= 64 && spec_magic_ok(buf@)),
            r is Ok ==> r->Ok_0 == spec_header(buf@),
            r is Err ==> r->Err_0 == PixieError::BadObjectHeader,
    {
        if buf.len() < 64 {
            return Err(PixieError::BadObjectHeader);
        }
        if !(buf[0] == 0x7f && buf[1] == 0x45 && buf[2] == 0x4c && buf[3] == 0x46) {
            return Err(PixieError::BadObjectHeader);
        }
        Ok(ObjectHeader {
            class: ElfClass::of(buf[4]),
            endianness: Endianness::of(buf[5]),
            version: buf[6],
            os_abi: OsAbi::of(buf[7]),
            typ: ElfType::of(read_u16(buf, 16)),
            machine: ElfMachine::of(read_u16(buf, 18)),
            version_bis: read_u32(buf, 20),
            entry_point: read_u64(buf, 24),
            ph_offset: read_u64(buf, 32),
            sh_offset: read_u64(buf, 40),
            flags: read_u32(buf, 48),
            hdr_size: read_u16(buf, 52),
            ph_entsize: read_u16(buf, 54),
            ph_count: read_u16(buf, 56),
            sh_entsize: read_u16(buf, 58),
            sh_count: read_u16(buf, 60),
            sh_nidx: read_u16(buf, 62),
        })
    }

    /// Append the header's 64-byte encoding to `out`.
    ///
    /// The encoding starts with the ELF magic, stores each field
    /// little-endian at its fixed offset, and zero-fills the padding, so
    /// that parsing the written bytes yields back each field's stored code.
    pub fn write_to(&self, out: &mut Vec<u8>)
        ensures
            final(out)@.len() == old(out)@.len() + 64,
            final(out)@.subrange(0, old(out)@.len() as int) == old(out)@,
            spec_magic_ok(final(out)@.skip(old(out)@.len() as int)),
            spec_header(final(out)@.skip(old(out)@.len() as int)) == (ObjectHeader {
                class: ElfClass::spec_of(self.class.spec_code()),
                endianness: Endianness::spec_of(self.endianness.spec_code()),
                os_abi: OsAbi::spec_of(self.os_abi.spec_code()),
                typ: ElfType::spec_of(self.typ.spec_code()),
                machine: ElfMachine::spec_of(self.machine.spec_code()),
                ..*self
            }),
    {
        let ghost base = out@.len() as int;
        out.push(0x7f);
        out.push(0x45);
        out.push(0x4c);
        out.push(0x46);
        out.push(self.class.code());
        out.push(self.endianness.code());
        out.push(self.version);
        out.push(self.os_abi.code());
        out.push(0);
        out.push(0);
        out.push(0);
        out.push(0);
        out.push(0);
        out.push(0);
        out.push(0);
        out.push(0);
        proof {
            assert(out@.len() == base + 16);
            assert(out@[base] == 0x7f && out@[base + 1] == 0x45
                && out@[base + 2] == 0x4c && out@[base + 3] == 0x46);
            assert(out@[base + 4] == self.class.spec_code());
            assert(out@[base + 5] == self.endianness.spec_code());
            assert(out@[base + 6] == self.version);
            assert(out@[base + 7] == self.os_abi.spec_code());
        }
        push_u16(out, self.typ.code());
        push_u16(out, self.machine.code());
        push_u32(out, self.version_bis);
        push_u64(out, self.entry_point);
        push_u64(out, self.ph_offset);
        push_u64(out, self.sh_offset);
        push_u32(out, self.flags);
        push_u16(out, self.hdr_size);
        push_u16(out, self.ph_entsize);
        push_u16(out, self.ph_count);
        push_u16(out, self.sh_entsize);
        push_u16(out, self.sh_count);
        push_u16(out, self.sh_nidx);
        proof {
            let s = out@.skip(base);
            assert(out@.subrange(0, base) =~= old(out)@);
            vstd::bytes::lemma_auto_spec_u16_to_from_le_bytes();
            vstd::bytes::lemma_auto_spec_u32_to_from_le_bytes();
            vstd::bytes::lemma_auto_spec_u64_to_from_le_bytes();
            assert(s.subrange(16, 18) =~= vstd::bytes::spec_u16_to_le_bytes(self.typ.spec_code()));
            assert(s.subrange(18, 20) =~= vstd::bytes::spec_u16_to_le_bytes(self.machine.spec_code()));
            assert(s.subrange(20, 24) =~= vstd::bytes::spec_u32_to_le_bytes(self.version_bis));
            assert(s.subrange(24, 32) =~= vstd::bytes::spec_u64_to_le_bytes(self.entry_point));
            assert(s.subrange(32, 40) =~= vstd::bytes::spec_u64_to_le_bytes(self.ph_offset));
            assert(s.subrange(40, 48) =~= vstd::bytes::spec_u64_to_le_bytes(self.sh_offset));
            assert(s.subrange(48, 52) =~= vstd::bytes::spec_u32_to_le_bytes(self.flags));
            assert(s.subrange(52, 54) =~= vstd::bytes::spec_u16_to_le_bytes(self.hdr_size));
            assert(s.subrange(54, 56) =~= vstd::bytes::spec_u16_to_le_bytes(self.ph_entsize));
            assert(s.subrange(56, 58) =~= vstd::bytes::spec_u16_to_le_bytes(self.ph_count));
            assert(s.subrange(58, 60) =~= vstd::bytes::spec_u16_to_le_bytes(self.sh_entsize));
            assert(s.subrange(60, 62) =~= vstd::bytes::spec_u16_to_le_bytes(self.sh_count));
            assert(s.subrange(62, 64) =~= vstd::bytes::spec_u16_to_le_bytes(self.sh_nidx));
        }
    }
}

/// The header parsed out of a preserved prefix stays the same when bytes
/// are appended after the prefix.
pub proof fn lemma_header_prefix(s1: Seq<u8>, s2: Seq<u8>)
    requires
        64 <= s1.len(),
        s1.len() <= s2.len(),
        s2.subrange(0, s1.len() as int) == s1,
    ensures
        spec_header(s2) == spec_header(s1),
        spec_magic_ok(s2) == spec_magic_ok(s1),
{
    assert forall|i: int| 0 <= i < s1.len() implies s2[i] == s1[i] by {
        assert(s2.subrange(0, s1.len() as int)[i] == s2[i]);
    }
    crate::le::lemma_le16_prefix(s1, s2, 16);
    crate::le::lemma_le16_prefix(s1, s2, 18);
    crate::le::lemma_le32_prefix(s1, s2, 20);
    crate::le::lemma_le64_prefix(s1, s2, 24);
    crate::le::lemma_le64_prefix(s1, s2, 32);
    crate::le::lemma_le64_prefix(s1, s2, 40);
    crate::le::lemma_le32_prefix(s1, s2, 48);
    crate::le::lemma_le16_prefix(s1, s2, 52);
    crate::le::lemma_le16_prefix(s1, s2, 54);
    crate::le::lemma_le16_prefix(s1, s2, 56);
    crate::le::lemma_le16_prefix(s1, s2, 58);
    crate::le::lemma_le16_prefix(s1, s2, 60);
    crate::le::lemma_le16_prefix(s1, s2, 62);
}

} // verus!
