//! Relocation records: 24-byte RELA entries.

use vstd::prelude::*;
use crate::le::{le32, le64, read_u32, read_u64};
use crate::error::PixieError;

verus! {

/// The relocation kinds the engine applies. Every one of them stores an
/// eight-byte little-endian address at the target.
#[derive(Clone, Copy, Debug, PartialEq, Eq, Structural)]
pub enum RelType {
    /// A direct 64-bit address.
    _64,
    /// A global-offset-table entry.
    GlobDat,
    /// A procedure-linkage-table slot.
    JumpSlot,
    /// A base-relative address, with no symbol.
    Relative,
    Other(u32),
}

impl RelType {
    /// The code this relocation kind is stored as.
    pub open spec fn spec_code(self) -> u32 {
        match self {
            RelType::_64 => 1,
            RelType::GlobDat => 6,
            RelType::JumpSlot => 7,
            RelType::Relative => 8,
            RelType::Other(x) => x,
        }
    }

    /// The relocation kind a stored code stands for.
    pub open spec fn spec_of(x: u32) -> RelType {
        if x == 1 {
            RelType::_64
        } else if x == 6 {
            RelType::GlobDat
        } else if x == 7 {
            RelType::JumpSlot
        } else if x == 8 {
            RelType::Relative
        } else {
            RelType::Other(x)
        }
    }

    /// True of the four kinds the engine supports.
    pub open spec fn spec_supported(self) -> bool {
        self is _64 || self is GlobDat || self is JumpSlot || self is Relative
    }

    pub fn code(self) -> (r: u32)
        ensures
            r == self.spec_code(),
    {
        match self {
            RelType::_64 => 1,
            RelType::GlobDat => 6,
            RelType::JumpSlot => 7,
            RelType::Relative => 8,
            RelType::Other(x) => x,
        }
    }

    pub fn of(x: u32) -> (r: RelType)
        ensures
            r == RelType::spec_of(x),
    {
        if x == 1 {
            RelType::_64
        } else if x == 6 {
            RelType::GlobDat
        } else if x == 7 {
            RelType::JumpSlot
        } else if x == 8 {
            RelType::Relative
        } else {
            RelType::Other(x)
        }
    }

    /// True of the four kinds the engine supports.
    pub fn supported(self) -> (r: bool)
        ensures
            r == self.spec_supported(),
    {
        match self {
            RelType::_64 | RelType::GlobDat | RelType::JumpSlot | RelType::Relative => true,
            RelType::Other(_) => false,
        }
    }
}

/// One relocation record: patch the eight bytes at virtual address
/// `offset` with a value computed from the symbol at index `sym` and
/// `addend`.
#[derive(Clone, Copy, Debug, PartialEq, Eq, Structural)]
pub struct Rela {
    pub offset: u64,
    pub sym: u32,
    pub typ: RelType,
    pub addend: u64,
}

/// The relocation record stored at byte offset `off` of `s`: target
/// address, then a packed word holding the kind in its low half and the
/// symbol index in its high half, then the addend.
pub open spec fn spec_rela(s: Seq<u8>, off: int) -> Rela {
    Rela {
        offset: le64(s, off),
        sym: le32(s, off + 12),
        typ: RelType::spec_of(le32(s, off + 8)),
        addend: le64(s, off + 16),
    }
}

impl Rela {
    /// The record's stored size in bytes.
    pub open spec fn spec_size() -> u16 {
        24
    }

    pub const SIZE: u16 = 24;

    /// Parse the relocation record stored at offset `off` of `buf`.
    ///
    /// Succeeds exactly when the 24-byte record lies inside the buffer.
    pub fn parse_at(buf: &[u8], off: usize) -> (r: Result<Rela, PixieError>)
        ensures
            r is Ok <==> off + 24 <= buf@.len(),
            r is Ok ==> r->Ok_0 == spec_rela(buf@, off as int),
            r is Err ==> r->Err_0 == PixieError::DynamicOutOfBounds,
    {
        if buf.len() < 24 || off > buf.len() - 24 {
            return Err(PixieError::DynamicOutOfBounds);
        }
        Ok(Rela {
            offset: read_u64(buf, off),
            sym: read_u32(buf, off + 12),
            typ: RelType::of(read_u32(buf, off + 8)),
            addend: read_u64(buf, off + 16),
        })
    }
}

} // verus!
