//! Symbol records: 24-byte entries of the dynamic symbol table.

use vstd::prelude::*;
use crate::le::{le16, le32, le64, read_u16, read_u32, read_u64};
use crate::error::PixieError;

verus! {

/// One symbol-table entry. `name` is a byte offset into the string table;
/// `value` is the symbol's (non-relocated) address.
#[derive(Clone, Copy, Debug, PartialEq, Eq, Structural)]
pub struct Sym {
    pub name: u32,
    pub info: u8,
    pub other: u8,
    pub shndx: u16,
    pub value: u64,
    pub size: u64,
}

/// The symbol record stored at byte offset `off` of `s`.
pub open spec fn spec_sym(s: Seq<u8>, off: int) -> Sym {
    Sym {
        name: le32(s, off),
        info: s[off + 4],
        other: s[off + 5],
        shndx: le16(s, off + 6),
        value: le64(s, off + 8),
        size: le64(s, off + 16),
    }
}

impl Sym {
    /// The record's stored size in bytes.
    pub open spec fn spec_size() -> u16 {
        24
    }

    pub const SIZE: u16 = 24;

    /// Parse the symbol record stored at offset `off` of `buf`.
    ///
    /// Succeeds exactly when the 24-byte record lies inside the buffer.
    pub fn parse_at(buf: &[u8], off: usize) -> (r: Result<Sym, PixieError>)
        ensures
            r is Ok <==> off + 24 <= buf@.len(),
            r is Ok ==> r->Ok_0 == spec_sym(buf@, off as int),
            r is Err ==> r->Err_0 == PixieError::DynamicOutOfBounds,
    {
        if buf.len() < 24 || off > buf.len() - 24 {
            return Err(PixieError::DynamicOutOfBounds);
        }
        Ok(Sym {
            name: read_u32(buf, off),
            info: buf[off + 4],
            other: buf[off + 5],
            shndx: read_u16(buf, off + 6),
            value: read_u64(buf, off + 8),
            size: read_u64(buf, off + 16),
        })
    }
}

} // verus!
