//! The on-disk binary formats: ELF object header, program headers, dynamic
//! entries, symbol records and relocation records, each with its
//! little-endian layout stated field by field.

pub mod header;
pub mod program_header;
pub mod dynamic;
pub mod sym;
pub mod rela;
