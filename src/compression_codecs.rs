//! The contract that a compression method implements, and the identity codec.
use vstd::prelude::*;

use crate::ZipError;

verus! {

/// Bytes to compress or expand, with the length that the caller expects.
pub type MemoryStream<'stream> = (&'stream Vec<u8>, usize);

/// A compression method, identified by its registered zip method code.
///
/// Each codec is deterministic: what it returns depends on its input alone.
pub trait CompressionCodec {
    /// The registered zip method code that this codec implements.
    spec fn method_id(&self) -> u16;

    /// What compressing `data` gives, or `None` where compressing fails.
    spec fn compressed(&self, data: Seq<u8>) -> Option<Seq<u8>>;

    /// What expanding `data` gives, or `None` where expanding fails.
    spec fn expanded(&self, data: Seq<u8>) -> Option<Seq<u8>>;

    /// Returns the method code of the codec.
    fn int_id(&self) -> (r: u16)
        ensures
            r == self.method_id(),
    ;

    fn compress(&self, data: MemoryStream) -> (r: Result<Vec<u8>, ZipError>)
        ensures
            match self.compressed(data.0@) {
                Some(c) => r is Ok && r->Ok_0@ == c,
                None => r is Err,
            },
    ;

    fn expand(&self, data: MemoryStream) -> (r: Result<Vec<u8>, ZipError>)
        ensures
            match self.expanded(data.0@) {
                Some(c) => r is Ok && r->Ok_0@ == c,
                None => r is Err,
            },
    ;
}

/// A copy of `data`.
pub fn copy_bytes(data: &Vec<u8>) -> (r: Vec<u8>)
    ensures
        r@ == data@,
{
    let mut out: Vec<u8> = Vec::with_capacity(data.len());
    let mut i: usize = 0;
    while i < data.len()
        invariant
            i <= data@.len(),
            out@ == data@.subrange(0, i as int),
        decreases data@.len() - i,
    {
        out.push(data[i]);
        i = i + 1;
        assert(out@ =~= data@.subrange(0, i as int));
    }
    assert(data@.subrange(0, i as int) =~= data@);
    out
}

/// The "stored" method, code 0: bytes pass through unchanged.
pub struct NoCompressionCodec;

impl CompressionCodec for NoCompressionCodec {
    open spec fn method_id(&self) -> u16 {
        0
    }

    open spec fn compressed(&self, data: Seq<u8>) -> Option<Seq<u8>> {
        Some(data)
    }

    open spec fn expanded(&self, data: Seq<u8>) -> Option<Seq<u8>> {
        Some(data)
    }

    fn int_id(&self) -> (r: u16) {
        0
    }

    fn compress(&self, data: MemoryStream) -> (r: Result<Vec<u8>, ZipError>) {
        Ok(copy_bytes(data.0))
    }

    fn expand(&self, data: MemoryStream) -> (r: Result<Vec<u8>, ZipError>) {
        Ok(copy_bytes(data.0))
    }
}

} // verus!
