//! Compression of saved programs with zstd.

use vstd::prelude::*;

verus! {

/// The error type of the compressor and the decompressor.
#[verifier::external_type_specification]
#[verifier::external_body]
pub struct ExIoError(std::io::Error);

/// What `zstd::decode_all` makes of `frame`: the bytes that it returns, or
/// `None` where it reports an error.
pub uninterp spec fn zstd_decoded(frame: Seq<u8>) -> Option<Seq<u8>>;

/// What `zstd::encode_all` makes of `data` at the compression level `level`:
/// the frame that it returns, or `None` where it reports an error.
pub uninterp spec fn zstd_encoded(data: Seq<u8>, level: i32) -> Option<Seq<u8>>;

/// Calls `zstd::encode_all` on `data` with the compression level `level`.
///
/// Nothing is proved of this call.  It is taken on trust that what it returns
/// depends on `data` and `level` alone, and that, where it succeeds, it
/// returns a frame from which `zstd::decode_all` gets `data` back: zstd
/// compresses without loss.
#[verifier::external_body]
pub(crate) fn compress(data: &[u8], level: i32) -> (r: Result<Vec<u8>, std::io::Error>)
    ensures
        match r {
            Ok(frame) => zstd_encoded(data@, level) == Some(frame@) && zstd_decoded(frame@) == Some(
                data@,
            ),
            Err(_) => zstd_encoded(data@, level) is None,
        },
{
    zstd::encode_all(data, level)
}

/// Calls `zstd::decode_all` on `frame`.
///
/// Nothing is proved of this call.  It is taken on trust that what it returns
/// depends on the bytes of `frame` alone.
#[verifier::external_body]
pub(crate) fn decompress(frame: &[u8]) -> (r: Result<Vec<u8>, std::io::Error>)
    ensures
        match r {
            Ok(data) => zstd_decoded(frame@) == Some(data@),
            Err(_) => zstd_decoded(frame@) is None,
        },
{
    zstd::decode_all(frame)
}

} // verus!
