//! Zip archive reader: locates, indexes and extracts the members of a zip
//! container held in memory, without trusting any size or offset that the
//! archive declares.
use vstd::prelude::*;

pub mod codecs;
pub mod compression_codecs;
pub mod cursor;
pub mod name_map;
pub mod read;
pub mod reader;
pub mod structures;

verus! {

/// Signature of the end of central directory record.
pub const EOCD_SIG: u32 = 0x06054b50;

/// Signature of the zip64 end of central directory record.
pub const EOCD64_SIG: u32 = 0x06064b50;

/// Signature of a central directory entry.
pub const CD_SIG: u32 = 0x02014b50;

/// Signature of a local file header.
pub const LFH_SIG: u32 = 0x04034b50;

/// Signature of the data descriptor that may follow a member's payload.
pub const DD_SIG: u32 = 0x08074b50;

/// The kind of an input/output failure.
#[derive(Debug, Clone, Copy, PartialEq, Eq, Structural)]
pub enum IoErrorKind {
    /// The byte source ended before a read was complete.
    UnexpectedEof,
    /// A required path does not exist.
    NotFound,
    /// A path that would be written already exists.
    AlreadyExists,
    /// Any other failure of the byte source or of an outside codec.
    Other,
}

/// Everything that can go wrong while reading an archive.
#[derive(Debug, Clone)]
pub enum ZipError {
    IOError(IoErrorKind),
    InvalidSignature(u32),
    EntryNotFound(String),
    EndOfCentralDirectoryNotFound,
    InvalidEntry(u64),
    InvalidCompressionMethod(u16),
    MismatchedCompressionMethod(u16, u16),
    InvalidCompressionLevel(i32),
    InvalidUtf8String,
    UnknownError(u64, String),
}

/// The stable code by which each kind of error is reported across a C boundary.
pub open spec fn error_code_of(e: ZipError) -> u16 {
    match e {
        ZipError::IOError(_) => 1,
        ZipError::InvalidSignature(_) => 2,
        ZipError::EntryNotFound(_) => 3,
        ZipError::EndOfCentralDirectoryNotFound => 4,
        ZipError::InvalidEntry(_) => 5,
        ZipError::InvalidCompressionMethod(_) => 6,
        ZipError::MismatchedCompressionMethod(_, _) => 7,
        ZipError::InvalidCompressionLevel(_) => 8,
        ZipError::InvalidUtf8String => 9,
        ZipError::UnknownError(_, _) => 0xFFFF,
    }
}

impl ZipError {
    pub fn error_code(&self) -> (r: u16)
        ensures
            r == error_code_of(*self),
    {
        match self {
            ZipError::IOError(_) => 1,
            ZipError::InvalidSignature(_) => 2,
            ZipError::EntryNotFound(_) => 3,
            ZipError::EndOfCentralDirectoryNotFound => 4,
            ZipError::InvalidEntry(_) => 5,
            ZipError::InvalidCompressionMethod(_) => 6,
            ZipError::MismatchedCompressionMethod(_, _) => 7,
            ZipError::InvalidCompressionLevel(_) => 8,
            ZipError::InvalidUtf8String => 9,
            ZipError::UnknownError(_, _) => 0xFFFF,
        }
    }
}

impl PartialEq for ZipError {
    fn eq(&self, other: &ZipError) -> (r: bool) {
        match (self, other) {
            (ZipError::IOError(a), ZipError::IOError(b)) => *a == *b,
            (ZipError::InvalidSignature(a), ZipError::InvalidSignature(b)) => *a == *b,
            (ZipError::EntryNotFound(a), ZipError::EntryNotFound(b)) => *a == *b,
            (ZipError::EndOfCentralDirectoryNotFound, ZipError::EndOfCentralDirectoryNotFound) => true,
            (ZipError::InvalidEntry(a), ZipError::InvalidEntry(b)) => *a == *b,
            (ZipError::InvalidCompressionMethod(a), ZipError::InvalidCompressionMethod(b)) => *a == *b,
            (
                ZipError::MismatchedCompressionMethod(a, b),
                ZipError::MismatchedCompressionMethod(c, d),
            ) => *a == *c && *b == *d,
            (ZipError::InvalidCompressionLevel(a), ZipError::InvalidCompressionLevel(b)) => *a == *b,
            (ZipError::InvalidUtf8String, ZipError::InvalidUtf8String) => true,
            (ZipError::UnknownError(a, b), ZipError::UnknownError(c, d)) => *a == *c && *b == *d,
            _ => false,
        }
    }
}

impl vstd::std_specs::cmp::PartialEqSpecImpl for ZipError {
    open spec fn obeys_eq_spec() -> bool {
        true
    }

    open spec fn eq_spec(&self, other: &ZipError) -> bool {
        match (*self, *other) {
            (ZipError::EntryNotFound(a), ZipError::EntryNotFound(b)) => a@ == b@,
            (ZipError::UnknownError(a, b), ZipError::UnknownError(c, d)) => a == c && b@ == d@,
            _ => *self == *other,
        }
    }
}

} // verus!
