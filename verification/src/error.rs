//! Error types: faults of the OS boundary and faults of the object model,
//! relocation engine and packer.

use vstd::prelude::*;
use crate::format::program_header::SegmentType;
use crate::format::dynamic::DynamicTagType;
use crate::format::rela::Rela;

verus! {

/// Faults at the OS boundary: mapping and file handling.
#[derive(Debug, Clone, PartialEq, Eq)]
pub enum EncoreError {
    /// A fixed mapping address was not aligned to the page size.
    MmapMemUnaligned(u64),
    /// A file offset handed to a mapping was not aligned to the page size.
    MmapFileUnaligned(u64),
    /// The mapping itself failed.
    MmapFailed,
    /// A file could not be opened.
    Open(String),
    /// A file could not be written.
    Write(String),
    /// A file could not be stat-ed.
    Stat(String),
}

/// Faults of the object model, the relocation engine and the packer.
#[derive(Debug, Clone, PartialEq, Eq)]
pub enum PixieError {
    /// The buffer does not hold a well-formed ELF header.
    BadObjectHeader,
    /// A program header falls outside the buffer.
    ProgramHeaderOutOfBounds,
    /// An OS-boundary fault, carried through.
    Encore(EncoreError),
    /// The object holds no segments of the wanted kind.
    NoSegmentsFound,
    /// No segment of this type exists.
    SegmentNotFound(SegmentType),
    /// A non-relocatable object cannot be mapped at a chosen address.
    CantMapNonRelocatableObjectAtFixedPosition,
    /// A non-relocatable object cannot be relocated.
    CannotRelocateNonRelocatableObject,
    /// No dynamic entry of this type exists.
    DynamicEntryNotFound(DynamicTagType),
    /// A relocation record of a kind the engine does not handle.
    UnsupportedRela(Rela),
    /// A dynamic table or symbol record falls outside the buffer.
    DynamicOutOfBounds,
    /// No symbol of the wanted name exists in the symbol table.
    SymbolNotFound,
    /// The compressed payload's framing was corrupt.
    DecompressionFailed,
    /// The manifest or end marker could not be read back.
    BadManifest,
    /// The guest is too large for the payload codec's size prefix.
    GuestTooLarge,
    /// The output would not fit in memory.
    OutputTooLarge,
}

impl From<EncoreError> for PixieError {
    fn from(e: EncoreError) -> (r: Self) {
        PixieError::Encore(e)
    }
}

impl vstd::std_specs::convert::FromSpecImpl<EncoreError> for PixieError {
    open spec fn obeys_from_spec() -> bool {
        true
    }

    open spec fn from_spec(e: EncoreError) -> Self {
        PixieError::Encore(e)
    }
}

} // verus!
