//! The records of the zip container.
use vstd::prelude::*;

verus! {

/// The header that precedes a member's payload.
#[derive(Debug, Clone)]
pub struct LocalFileHeader {
    /// The offset of the header in the archive.
    pub offset: u64,
    /// The version of the format needed to extract the member.
    pub version: u16,
    /// The general purpose flags.
    pub flags: u16,
    /// The compression method code.
    pub compression: u16,
    /// The last modified time, in MS-DOS form.
    pub last_mod_time: u16,
    /// The last modified date, in MS-DOS form.
    pub last_mod_date: u16,
    /// The crc32 of the payload; 0 when flag bit 3 defers it to a data descriptor.
    pub crc32: u32,
    /// The size of the stored payload; 0 when flag bit 3 defers it to a data descriptor.
    pub compressed_size: u32,
    /// The size of the expanded payload; 0 when flag bit 3 defers it to a data descriptor.
    pub uncompressed_size: u32,
    /// The member's path.
    pub filename: String,
    /// The extra field.
    pub extra_field: Vec<u8>,
    /// The offset of the payload in the archive.
    pub data_offset: u64,
}

/// Follows the payload when bit 3 of the flags is set, and then holds the
/// values that the local header leaves out.
pub struct DataDescriptor {
    pub crc32: u32,
    pub compressed_size: u32,
    pub uncompressed_size: u32,
}

/// One member's authoritative metadata, from the central directory near the
/// end of the archive.
#[derive(Debug, Clone)]
pub struct CentralDirectory {
    /// The offset of this record in the archive.
    pub offset: u64,
    pub version_made_by: u16,
    pub version_needed_to_extract: u16,
    pub flags: u16,
    pub compression: u16,
    pub last_mod_time: u16,
    pub last_mod_date: u16,
    pub crc32: u32,
    pub compressed_size: u32,
    pub uncompressed_size: u32,
    pub filename: String,
    pub extra_field: Vec<u8>,
    pub file_comment: Vec<u8>,
    pub disk_number_start: u16,
    pub internal_file_attributes: u16,
    pub external_file_attributes: u32,
    /// The offset of the member's local header in the archive.
    pub local_header_rel_offset: u32,
    /// Derived: the member is a directory exactly when its uncompressed size is 0.
    pub is_directory: bool,
    /// The number of bytes this record takes in the archive.
    pub len: u64,
}

/// The last record of an archive, which locates the central directory.
#[derive(Debug, Clone)]
pub struct EndOfCentralDirectory {
    pub disk_number: u16,
    pub disk_with_central_directory: u16,
    pub number_of_central_directory_records_on_this_disk: u16,
    pub total_number_of_central_directory_records: u16,
    pub size_of_central_directory: u32,
    pub offset_of_start_of_central_directory: u32,
    pub zip_file_comment: Vec<u8>,
}

/// The zip64 form of the end record; recognised by its signature, not decoded.
pub struct EndOfCentralDirectory64 {
    pub size_of_end_of_central_directory: u32,
    pub version_made_by: u16,
    pub version_needed_to_extract: u16,
    pub disk_number: u32,
    pub first_disk: u32,
    pub number_of_central_directory_records_on_this_disk: u64,
    pub total_number_of_central_directory_records: u64,
    pub size_of_central_directory: u64,
    pub offset_of_start_of_central_directory: u64,
    /// The extensible data that follows the fixed fields.
    pub extensible_data_sector: Vec<u8>,
}

/// A record of uncertain provenance, as found by the recovery indexer.
pub enum ZipEntry {
    LocalFileHeader(LocalFileHeader),
    CentralDirectory(CentralDirectory),
    EndOfCentralDirectory(EndOfCentralDirectory),
}

} // verus!
