//! Dynamic-section records: 16-byte (tag, value) pairs.

use vstd::prelude::*;
use crate::le::{le64, read_u64};
use crate::error::PixieError;

verus! {

/// The tags the relocation engine interprets. Every other tag is carried
/// through opaquely.
#[derive(Clone, Copy, Debug, PartialEq, Eq, Structural)]
pub enum DynamicTagType {
    Null,
    PltRelSz,
    StrTab,
    SymTab,
    Rela,
    RelaSz,
    SymEnt,
    JmpRel,
    Other(u64),
}

impl DynamicTagType {
    /// The code this tag is stored as.
    pub open spec fn spec_code(self) -> u64 {
        match self {
            DynamicTagType::Null => 0,
            DynamicTagType::PltRelSz => 2,
            DynamicTagType::StrTab => 5,
            DynamicTagType::SymTab => 6,
            DynamicTagType::Rela => 7,
            DynamicTagType::RelaSz => 8,
            DynamicTagType::SymEnt => 11,
            DynamicTagType::JmpRel => 23,
            DynamicTagType::Other(x) => x,
        }
    }

    /// The tag a stored code stands for.
    pub open spec fn spec_of(x: u64) -> DynamicTagType {
        if x == 0 {
            DynamicTagType::Null
        } else if x == 2 {
            DynamicTagType::PltRelSz
        } else if x == 5 {
            DynamicTagType::StrTab
        } else if x == 6 {
            DynamicTagType::SymTab
        } else if x == 7 {
            DynamicTagType::Rela
        } else if x == 8 {
            DynamicTagType::RelaSz
        } else if x == 11 {
            DynamicTagType::SymEnt
        } else if x == 23 {
            DynamicTagType::JmpRel
        } else {
            DynamicTagType::Other(x)
        }
    }

    pub fn code(self) -> (r: u64)
        ensures
            r == self.spec_code(),
    {
        match self {
            DynamicTagType::Null => 0,
            DynamicTagType::PltRelSz => 2,
            DynamicTagType::StrTab => 5,
            DynamicTagType::SymTab => 6,
            DynamicTagType::Rela => 7,
            DynamicTagType::RelaSz => 8,
            DynamicTagType::SymEnt => 11,
            DynamicTagType::JmpRel => 23,
            DynamicTagType::Other(x) => x,
        }
    }

    pub fn of(x: u64) -> (r: DynamicTagType)
        ensures
            r == DynamicTagType::spec_of(x),
    {
        if x == 0 {
            DynamicTagType::Null
        } else if x == 2 {
            DynamicTagType::PltRelSz
        } else if x == 5 {
            DynamicTagType::StrTab
        } else if x == 6 {
            DynamicTagType::SymTab
        } else if x == 7 {
            DynamicTagType::Rela
        } else if x == 8 {
            DynamicTagType::RelaSz
        } else if x == 11 {
            DynamicTagType::SymEnt
        } else if x == 23 {
            DynamicTagType::JmpRel
        } else {
            DynamicTagType::Other(x)
        }
    }
}

/// One (tag, value) pair as read from the `DYNAMIC` segment.
#[derive(Clone, Copy, Debug, PartialEq, Eq, Structural)]
pub struct DynamicTag {
    pub typ: DynamicTagType,
    pub addr: u64,
}

/// The dynamic record stored at byte offset `off` of `s`.
pub open spec fn spec_dynamic_tag(s: Seq<u8>, off: int) -> DynamicTag {
    DynamicTag {
        typ: DynamicTagType::spec_of(le64(s, off)),
        addr: le64(s, off + 8),
    }
}

impl DynamicTag {
    /// The record's stored size in bytes.
    pub open spec fn spec_size() -> u16 {
        16
    }

    pub const SIZE: u16 = 16;

    /// Parse the dynamic record stored at offset `off` of `buf`.
    ///
    /// Succeeds exactly when the 16-byte record lies inside the buffer.
    pub fn parse_at(buf: &[u8], off: usize) -> (r: Result<DynamicTag, PixieError>)
        ensures
            r is Ok <==> off + 16 <= buf@.len(),
            r is Ok ==> r->Ok_0 == spec_dynamic_tag(buf@, off as int),
            r is Err ==> r->Err_0 == PixieError::DynamicOutOfBounds,
    {
        if buf.len() < 16 || off > buf.len() - 16 {
            return Err(PixieError::DynamicOutOfBounds);
        }
        Ok(DynamicTag {
            typ: DynamicTagType::of(read_u64(buf, off)),
            addr: read_u64(buf, off + 8),
        })
    }
}

} // verus!
