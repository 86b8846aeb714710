//! The Zstandard method, by way of the zstd crate.
use vstd::prelude::*;

use crate::compression_codecs::{CompressionCodec, MemoryStream};
use crate::{IoErrorKind, ZipError};

verus! {

/// The registered zip code of the Zstandard method.
pub const ZSTD_METHOD: u16 = 93;

/// The frame that zstd's `encode_all` makes of `data` at `level`, or `None`
/// where it fails.
pub uninterp spec fn zstd_encoded(data: Seq<u8>, level: i32) -> Option<Seq<u8>>;

/// The bytes that zstd's `decode_all` recovers from `data`, or `None` where
/// `data` is not a valid zstd stream.
pub uninterp spec fn zstd_decoded(data: Seq<u8>) -> Option<Seq<u8>>;

/// Relies on `zstd::compression_level_range`: the lowest and the highest
/// level that the linked zstd accepts.
#[verifier::external_body]
fn zstd_level_bounds() -> (r: (i32, i32)) {
    let range = zstd::compression_level_range();
    (*range.start(), *range.end())
}

/// Relies on `zstd::encode_all`: a zstd frame of `data` at `level`, which
/// depends on `data` and `level` alone.
#[verifier::external_body]
fn zstd_encode(data: &[u8], level: i32) -> (r: Option<Vec<u8>>)
    ensures
        match r {
            Some(v) => zstd_encoded(data@, level) == Some(v@),
            None => zstd_encoded(data@, level) is None,
        },
{
    zstd::encode_all(data, level).ok()
}

/// Relies on `zstd::decode_all`: the content of the zstd stream `data`, which
/// depends on `data` alone.
#[verifier::external_body]
fn zstd_decode(data: &[u8]) -> (r: Option<Vec<u8>>)
    ensures
        match r {
            Some(v) => zstd_decoded(data@) == Some(v@),
            None => zstd_decoded(data@) is None,
        },
{
    zstd::decode_all(data).ok()
}

/// A Zstandard codec with a compression level.
pub struct ZstdCodec {
    pub level: i32,
}

impl ZstdCodec {
    /// A codec at `level`, which must lie in `lowest..=highest`.
    pub fn with_level_in(level: i32, lowest: i32, highest: i32) -> (r: Result<ZstdCodec, ZipError>)
        ensures
            lowest <= level <= highest ==> r is Ok && r->Ok_0.level == level,
            !(lowest <= level <= highest) ==> r is Err && r->Err_0 == ZipError::InvalidCompressionLevel(
                level,
            ),
    {
        if level < lowest || level > highest {
            return Err(ZipError::InvalidCompressionLevel(level));
        }
        Ok(ZstdCodec { level })
    }

    /// A codec at `level`, checked against the levels that zstd accepts.
    pub fn new(level: i32) -> (r: Result<ZstdCodec, ZipError>)
        ensures
            r matches Ok(c) ==> c.level == level,
            r matches Err(e) ==> e == ZipError::InvalidCompressionLevel(level),
    {
        let (lowest, highest) = zstd_level_bounds();
        ZstdCodec::with_level_in(level, lowest, highest)
    }
}

impl CompressionCodec for ZstdCodec {
    open spec fn method_id(&self) -> u16 {
        ZSTD_METHOD
    }

    open spec fn compressed(&self, data: Seq<u8>) -> Option<Seq<u8>> {
        zstd_encoded(data, self.level)
    }

    open spec fn expanded(&self, data: Seq<u8>) -> Option<Seq<u8>> {
        zstd_decoded(data)
    }

    fn int_id(&self) -> (r: u16) {
        ZSTD_METHOD
    }

    fn compress(&self, data: MemoryStream) -> (r: Result<Vec<u8>, ZipError>) {
        match zstd_encode(data.0.as_slice(), self.level) {
            Some(v) => Ok(v),
            None => Err(ZipError::IOError(IoErrorKind::Other)),
        }
    }

    fn expand(&self, data: MemoryStream) -> (r: Result<Vec<u8>, ZipError>) {
        match zstd_decode(data.0.as_slice()) {
            Some(v) => Ok(v),
            None => Err(ZipError::IOError(IoErrorKind::Other)),
        }
    }
}

} // verus!
