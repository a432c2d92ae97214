//! The guest payload codec: an LZ4 block with the uncompressed size
//! prepended as a little-endian `u32`. The block's content is named, not
//! restated; what the library proves is that decompression inverts
//! compression.

use vstd::prelude::*;
use vstd::bytes::spec_u32_to_le_bytes;
use crate::error::PixieError;

verus! {

/// The framed LZ4 block that compressing `s` yields: the compressor is a
/// pure function of the input bytes.
pub uninterp spec fn lz4_block_of(s: Seq<u8>) -> Seq<u8>;

#[verifier::external_type_specification]
#[verifier::external_body]
pub struct ExDecompressError(lz4_flex::block::DecompressError);

/// Relies on lz4_flex::compress_prepend_size: it compresses all input
/// bytes and prepends the uncompressed size as a little-endian u32, so
/// its result is a function of the input alone and starts with that size.
#[verifier::external_body]
fn raw_compress(data: &[u8]) -> (r: Vec<u8>)
    requires
        data@.len() <= u32::MAX,
    ensures
        r@ == lz4_block_of(data@),
        r@.len() >= 4,
        r@.subrange(0, 4) == spec_u32_to_le_bytes(data@.len() as u32),
{
    lz4_flex::compress_prepend_size(data)
}

/// Relies on lz4_flex::decompress_size_prepended: on a block that
/// compress_prepend_size produced it returns the original bytes.
#[verifier::external_body]
fn raw_decompress(data: &[u8]) -> (r: Result<Vec<u8>, lz4_flex::block::DecompressError>)
    ensures
        forall|s: Seq<u8>| data@ == #[trigger] lz4_block_of(s)
            ==> r is Ok && r->Ok_0@ == s,
{
    lz4_flex::decompress_size_prepended(data)
}

/// Compress `data` into a size-prefixed block.
pub fn compress(data: &[u8]) -> (r: Vec<u8>)
    requires
        data@.len() <= u32::MAX,
    ensures
        r@ == lz4_block_of(data@),
        r@.len() >= 4,
        r@.subrange(0, 4) == spec_u32_to_le_bytes(data@.len() as u32),
{
    raw_compress(data)
}

/// Decompress a size-prefixed block. On any block that `compress`
/// produced this returns the original bytes; corrupt framing is an error.
pub fn decompress(data: &[u8]) -> (r: Result<Vec<u8>, PixieError>)
    ensures
        forall|s: Seq<u8>| data@ == #[trigger] lz4_block_of(s)
            ==> r is Ok && r->Ok_0@ == s,
        r is Err ==> r->Err_0 == PixieError::DecompressionFailed,
{
    match raw_decompress(data) {
        Ok(v) => Ok(v),
        Err(_) => Err(PixieError::DecompressionFailed),
    }
}

} // verus!
