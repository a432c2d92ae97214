//! The manifest codec: the packed file's own trailer records. A
//! `Manifest` says where the compressed guest payload lives inside the
//! file; the fixed-size `EndMarker`, always the literal last bytes of the
//! file, says where the manifest lives.

use vstd::prelude::*;
use vstd::bytes::{spec_u64_to_le_bytes, lemma_auto_spec_u64_to_from_le_bytes};
use crate::error::PixieError;
use crate::le::{le64, read_u64, push_u64};

verus! {

/// The marker value closing every packed file.
pub const END_MARKER_MAGIC: u64 = 0x304b41_50494e49;

/// A byte range inside the packed file.
#[derive(Clone, Copy, Debug, PartialEq, Eq, Structural)]
pub struct Resource {
    pub offset: u64,
    pub len: u64,
}

/// The build-time-written, run-time-read record locating the compressed
/// guest payload.
#[derive(Clone, Copy, Debug, PartialEq, Eq, Structural)]
pub struct Manifest {
    pub guest: Resource,
}

/// The fixed-size record at the very end of the packed file, holding the
/// manifest's file offset and the closing marker value.
#[derive(Clone, Copy, Debug, PartialEq, Eq, Structural)]
pub struct EndMarker {
    pub manifest_offset: u64,
}

/// The manifest's 16-byte encoding: the guest range's offset, then its
/// length, both little-endian.
pub open spec fn spec_encode_manifest(m: Manifest) -> Seq<u8> {
    spec_u64_to_le_bytes(m.guest.offset) + spec_u64_to_le_bytes(m.guest.len)
}

/// The manifest stored at byte offset `off` of `s`.
pub open spec fn spec_manifest_at(s: Seq<u8>, off: int) -> Manifest {
    Manifest {
        guest: Resource { offset: le64(s, off), len: le64(s, off + 8) },
    }
}

/// The end marker's 16-byte encoding: the manifest offset, then the
/// marker value, both little-endian.
pub open spec fn spec_encode_end_marker(e: EndMarker) -> Seq<u8> {
    spec_u64_to_le_bytes(e.manifest_offset) + spec_u64_to_le_bytes(END_MARKER_MAGIC)
}

/// The end marker stored at byte offset `off` of `s`, when the marker
/// value stands beside it.
pub open spec fn spec_end_marker_at(s: Seq<u8>, off: int) -> EndMarker {
    EndMarker { manifest_offset: le64(s, off) }
}

/// True when the marker value stands at byte offset `off` of `s`.
pub open spec fn spec_end_marker_ok(s: Seq<u8>, off: int) -> bool {
    le64(s, off + 8) == END_MARKER_MAGIC
}

impl Manifest {
    /// The record's stored size in bytes.
    pub open spec fn spec_size() -> u16 {
        16
    }

    pub const SIZE: u16 = 16;

    /// Append the manifest's encoding to `out`.
    pub fn write_to(&self, out: &mut Vec<u8>)
        ensures
            final(out)@ == old(out)@ + spec_encode_manifest(*self),
            final(out)@.len() == old(out)@.len() + 16,
            spec_manifest_at(final(out)@, old(out)@.len() as int) == *self,
    {
        push_u64(out, self.guest.offset);
        push_u64(out, self.guest.len);
        proof {
            lemma_auto_spec_u64_to_from_le_bytes();
            assert(out@.subrange(old(out)@.len() as int, old(out)@.len() as int + 8)
                =~= spec_u64_to_le_bytes(self.guest.offset));
            assert(out@.subrange(old(out)@.len() as int + 8, old(out)@.len() as int + 16)
                =~= spec_u64_to_le_bytes(self.guest.len));
            assert(out@ =~= old(out)@ + spec_encode_manifest(*self));
        }
    }

    /// Parse the manifest stored at offset `off` of `buf`.
    ///
    /// Succeeds exactly when the 16-byte record lies inside the buffer.
    pub fn parse_at(buf: &[u8], off: usize) -> (r: Result<Manifest, PixieError>)
        ensures
            r is Ok <==> off + 16 <= buf@.len(),
            r is Ok ==> r->Ok_0 == spec_manifest_at(buf@, off as int),
            r is Err ==> r->Err_0 == PixieError::BadManifest,
    {
        if buf.len() < 16 || off > buf.len() - 16 {
            return Err(PixieError::BadManifest);
        }
        Ok(Manifest {
            guest: Resource {
                offset: read_u64(buf, off),
                len: read_u64(buf, off + 8),
            },
        })
    }

    /// Read the manifest out of a whole packed file: the end marker is the
    /// file's last 16 bytes; its offset field locates the manifest.
    ///
    /// Fails when the file is too short, the marker value is absent, or
    /// the offset points outside the file.
    pub fn read_from_full_slice(buf: &[u8]) -> (r: Result<Manifest, PixieError>)
        ensures
            r is Ok <==> (buf@.len() >= 16
                && spec_end_marker_ok(buf@, buf@.len() - 16)
                && le64(buf@, buf@.len() - 16) + 16 <= buf@.len()),
            r is Ok ==> r->Ok_0 == spec_manifest_at(
                buf@, le64(buf@, buf@.len() - 16) as int),
            r is Err ==> r->Err_0 == PixieError::BadManifest,
    {
        let n = buf.len();
        if n < 16 {
            return Err(PixieError::BadManifest);
        }
        let marker = read_u64(buf, n - 8);
        if marker != END_MARKER_MAGIC {
            return Err(PixieError::BadManifest);
        }
        let manifest_offset = read_u64(buf, n - 16);
        if manifest_offset > n as u64 || 16 > n as u64 - manifest_offset {
            return Err(PixieError::BadManifest);
        }
        Manifest::parse_at(buf, manifest_offset as usize)
    }
}

impl EndMarker {
    /// The record's stored size in bytes.
    pub open spec fn spec_size() -> u16 {
        16
    }

    pub const SIZE: u16 = 16;

    /// Append the end marker's encoding to `out`.
    pub fn write_to(&self, out: &mut Vec<u8>)
        ensures
            final(out)@ == old(out)@ + spec_encode_end_marker(*self),
            final(out)@.len() == old(out)@.len() + 16,
            spec_end_marker_at(final(out)@, old(out)@.len() as int) == *self,
            spec_end_marker_ok(final(out)@, old(out)@.len() as int),
    {
        push_u64(out, self.manifest_offset);
        push_u64(out, END_MARKER_MAGIC);
        proof {
            lemma_auto_spec_u64_to_from_le_bytes();
            assert(out@.subrange(old(out)@.len() as int, old(out)@.len() as int + 8)
                =~= spec_u64_to_le_bytes(self.manifest_offset));
            assert(out@.subrange(old(out)@.len() as int + 8, old(out)@.len() as int + 16)
                =~= spec_u64_to_le_bytes(END_MARKER_MAGIC));
            assert(out@ =~= old(out)@ + spec_encode_end_marker(*self));
        }
    }

    /// Parse the end marker stored at offset `off` of `buf`, checking the
    /// marker value beside it.
    pub fn parse_at(buf: &[u8], off: usize) -> (r: Result<EndMarker, PixieError>)
        ensures
            r is Ok <==> (off + 16 <= buf@.len() && spec_end_marker_ok(buf@, off as int)),
            r is Ok ==> r->Ok_0 == spec_end_marker_at(buf@, off as int),
            r is Err ==> r->Err_0 == PixieError::BadManifest,
    {
        if buf.len() < 16 || off > buf.len() - 16 {
            return Err(PixieError::BadManifest);
        }
        let marker = read_u64(buf, off + 8);
        if marker != END_MARKER_MAGIC {
            return Err(PixieError::BadManifest);
        }
        Ok(EndMarker { manifest_offset: read_u64(buf, off) })
    }
}

/// Law: decoding an encoded manifest yields back its fields exactly.
pub proof fn lemma_manifest_round_trip(m: Manifest)
    ensures
        spec_manifest_at(spec_encode_manifest(m), 0) == m,
{
    lemma_auto_spec_u64_to_from_le_bytes();
    let s = spec_encode_manifest(m);
    assert(s.subrange(0, 8) =~= spec_u64_to_le_bytes(m.guest.offset));
    assert(s.subrange(8, 16) =~= spec_u64_to_le_bytes(m.guest.len));
}

/// Law: decoding an encoded end marker recovers the exact manifest
/// offset, and the marker value beside it checks out.
pub proof fn lemma_end_marker_round_trip(e: EndMarker)
    ensures
        spec_end_marker_at(spec_encode_end_marker(e), 0) == e,
        spec_end_marker_ok(spec_encode_end_marker(e), 0),
{
    lemma_auto_spec_u64_to_from_le_bytes();
    let s = spec_encode_end_marker(e);
    assert(s.subrange(0, 8) =~= spec_u64_to_le_bytes(e.manifest_offset));
    assert(s.subrange(8, 16) =~= spec_u64_to_le_bytes(END_MARKER_MAGIC));
}

} // verus!
