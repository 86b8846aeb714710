//! The deflate method, as gzip uses it.
use vstd::prelude::*;

use crate::compression_codecs::{CompressionCodec, MemoryStream};
use crate::ZipError;

verus! {

/// The registered zip code of the deflate method.
pub const DEFLATE_METHOD: u16 = 8;

/// A deflate codec with a compression level. No deflate implementation is
/// linked into this library, so each of its operations reports the method as
/// unavailable.
pub struct GzipCodec {
    pub level: i32,
}

impl GzipCodec {
    pub fn new(level: i32) -> (r: GzipCodec)
        ensures
            r.level == level,
    {
        GzipCodec { level }
    }
}

impl CompressionCodec for GzipCodec {
    open spec fn method_id(&self) -> u16 {
        DEFLATE_METHOD
    }

    open spec fn compressed(&self, data: Seq<u8>) -> Option<Seq<u8>> {
        None
    }

    open spec fn expanded(&self, data: Seq<u8>) -> Option<Seq<u8>> {
        None
    }

    fn int_id(&self) -> (r: u16) {
        DEFLATE_METHOD
    }

    fn compress(&self, data: MemoryStream) -> (r: Result<Vec<u8>, ZipError>)
        ensures
            r == Err::<Vec<u8>, ZipError>(ZipError::InvalidCompressionMethod(DEFLATE_METHOD)),
    {
        Err(ZipError::InvalidCompressionMethod(DEFLATE_METHOD))
    }

    fn expand(&self, data: MemoryStream) -> (r: Result<Vec<u8>, ZipError>)
        ensures
            r == Err::<Vec<u8>, ZipError>(ZipError::InvalidCompressionMethod(DEFLATE_METHOD)),
    {
        Err(ZipError::InvalidCompressionMethod(DEFLATE_METHOD))
    }
}

} // verus!
