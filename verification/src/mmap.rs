//! Mapping requests: the builder the OS boundary consumes, and the
//! checked plan it resolves to. The alignment rules and flag adjustments
//! are decided here; the caller makes the actual syscall from the plan.

use vstd::prelude::*;
use crate::error::EncoreError;

verus! {

/// Mapping protections, as bits.
pub const PROT_READ: u64 = 0x1;
pub const PROT_WRITE: u64 = 0x2;
pub const PROT_EXEC: u64 = 0x4;

/// Mapping flags, as bits.
pub const MAP_PRIVATE: u64 = 0x02;
pub const MAP_FIXED: u64 = 0x10;
pub const MAP_ANONYMOUS: u64 = 0x20;

/// A file to map: a descriptor number and an offset into it.
#[derive(Clone, Copy, Debug, PartialEq, Eq, Structural)]
pub struct FileOpts {
    pub fd: u64,
    pub offset: u64,
}

/// A mapping request under construction.
#[derive(Clone, Copy, Debug, PartialEq, Eq, Structural)]
pub struct MmapOptions {
    pub prot: u64,
    pub flags: u64,
    pub len: u64,
    pub file: Option<FileOpts>,
    pub at: Option<u64>,
}

/// The checked arguments of one mapping call.
#[derive(Clone, Copy, Debug, PartialEq, Eq, Structural)]
pub struct MmapPlan {
    pub addr: u64,
    pub len: u64,
    pub prot: u64,
    pub flags: u64,
    pub fd: u64,
    pub offset: u64,
}

impl MmapOptions {
    /// A new set of mapping options: a private anonymous read/write
    /// mapping of `len` bytes, wherever the OS likes.
    pub fn new(len: u64) -> (r: MmapOptions)
        ensures
            r == (MmapOptions {
                prot: PROT_READ | PROT_WRITE,
                flags: MAP_ANONYMOUS | MAP_PRIVATE,
                len,
                file: None,
                at: None,
            }),
    {
        MmapOptions {
            prot: PROT_READ | PROT_WRITE,
            flags: MAP_ANONYMOUS | MAP_PRIVATE,
            len,
            file: None,
            at: None,
        }
    }

    /// Map a file rather than anonymous memory.
    pub fn file(&mut self, file: FileOpts)
        ensures
            *final(self) == (MmapOptions { file: Some(file), ..*old(self) }),
    {
        self.file = Some(file);
    }

    /// Set the protections.
    pub fn prot(&mut self, prot: u64)
        ensures
            *final(self) == (MmapOptions { prot, ..*old(self) }),
    {
        self.prot = prot;
    }

    /// Set the flags, overwriting the defaults.
    pub fn flags(&mut self, flags: u64)
        ensures
            *final(self) == (MmapOptions { flags, ..*old(self) }),
    {
        self.flags = flags;
    }

    /// Request a fixed address for the mapping.
    pub fn at(&mut self, at: u64)
        ensures
            *final(self) == (MmapOptions { at: Some(at), ..*old(self) }),
    {
        self.at = Some(at);
    }

    /// Resolve the request into the checked arguments of one mapping
    /// call: a fixed address must be page-aligned and adds the fixed
    /// flag; a file offset must be page-aligned and clears the anonymous
    /// flag.
    pub fn plan(&self) -> (r: Result<MmapPlan, EncoreError>)
        ensures
            ({
                match r {
                    Ok(p) => {
                        &&& (self.at matches Some(a) ==> a % 0x1000 == 0 && p.addr == a)
                        &&& (self.at is None ==> p.addr == 0)
                        &&& (self.file matches Some(f)
                            ==> f.offset % 0x1000 == 0 && p.fd == f.fd && p.offset == f.offset)
                        &&& (self.file is None ==> p.fd == 0 && p.offset == 0)
                        &&& p.len == self.len
                        &&& p.prot == self.prot
                        &&& p.flags == ({
                            let with_fixed = if self.at is Some {
                                self.flags | MAP_FIXED
                            } else {
                                self.flags
                            };
                            if self.file is Some {
                                with_fixed & !MAP_ANONYMOUS
                            } else {
                                with_fixed
                            }
                        })
                    },
                    Err(e) => {
                        // The address check comes first; the file-offset
                        // check only after it passes.
                        if self.at is Some && self.at->0 % 0x1000 != 0 {
                            e == EncoreError::MmapMemUnaligned(self.at->0)
                        } else {
                            self.file is Some && self.file->0.offset % 0x1000 != 0
                                && e == EncoreError::MmapFileUnaligned(self.file->0.offset)
                        }
                    },
                }
            }),
            r is Err <==> ((self.at is Some && self.at->0 % 0x1000 != 0)
                || (self.file is Some && self.file->0.offset % 0x1000 != 0)),
    {
        let mut flags = self.flags;
        let mut addr: u64 = 0;
        if let Some(a) = self.at {
            if a % 0x1000 != 0 {
                return Err(EncoreError::MmapMemUnaligned(a));
            }
            flags = flags | MAP_FIXED;
            addr = a;
        }
        let mut fd: u64 = 0;
        let mut offset: u64 = 0;
        if let Some(f) = self.file {
            if f.offset % 0x1000 != 0 {
                return Err(EncoreError::MmapFileUnaligned(f.offset));
            }
            flags = flags & !MAP_ANONYMOUS;
            fd = f.fd;
            offset = f.offset;
        }
        Ok(MmapPlan {
            addr,
            len: self.len,
            prot: self.prot,
            flags,
            fd,
            offset,
        })
    }
}

} // verus!
