//! A static-executable packer: it compresses a guest ELF executable and
//! relinks it with a prebuilt loader stub into one output executable, which
//! at run time decompresses, maps and relocates the guest and hands control
//! to its entry point.
//!
//! The library holds the verified core: the ELF object model, the relocation
//! engine over an in-memory image, the manifest codec that locates the
//! compressed payload inside the packed file, the packer layout, and the
//! command-line rules. File and process handling stay outside.

pub mod align;
pub mod error;
pub mod format;
pub mod le;
pub mod object;
pub mod syms;
pub mod mapped;
pub mod manifest;
pub mod writer;
pub mod lz4;
pub mod pack;
pub mod cli;
pub mod loader;
pub mod mmap;
