//! Signature scanning and the decoders of the container's records.
use vstd::prelude::*;
use vstd::utf8::{decode_utf8, valid_utf8};

use crate::cursor::{eof, u16_le, u32_le, ByteCursor};
use crate::name_map::{lemma_seq_lookup_at, name_key, NameMap};
use crate::reader::ZipIndex;
use crate::structures::{CentralDirectory, EndOfCentralDirectory, LocalFileHeader, ZipEntry};
use crate::{ZipError, CD_SIG, EOCD_SIG, LFH_SIG};

verus! {

broadcast use vstd::utf8::decode_utf8_encode_utf8;

// ---------------------------------------------------------------------------
// Signatures
// ---------------------------------------------------------------------------

/// The four bytes at `i` hold `sig` in little-endian order.
pub open spec fn sig_at(s: Seq<u8>, i: int, sig: u32) -> bool {
    0 <= i && i + 4 <= s.len() && u32_le(s, i) == sig
}

/// The first offset at or after `from` that holds `sig`.
pub open spec fn first_sig_from(s: Seq<u8>, sig: u32, from: int) -> Option<int>
    decreases s.len() - from,
{
    if from + 4 > s.len() {
        None
    } else if sig_at(s, from, sig) {
        Some(from)
    } else {
        first_sig_from(s, sig, from + 1)
    }
}

/// Scanning from any `hint` at or before an occurrence of `sig` at `k`, with no
/// occurrence in between, finds exactly `k`.
pub proof fn lemma_scan_finds_occurrence(s: Seq<u8>, sig: u32, hint: int, k: int)
    requires
        0 <= hint <= k,
        sig_at(s, k, sig),
        forall|j: int| hint <= j < k ==> !sig_at(s, j, sig),
    ensures
        first_sig_from(s, sig, hint) == Some(k),
    decreases k - hint,
{
    if hint < k {
        lemma_scan_finds_occurrence(s, sig, hint + 1, k);
    }
}

/// What the scan finds is an occurrence at or after `from`, with none before it;
/// when it finds nothing, there is no occurrence at or after `from`.
pub proof fn lemma_scan_result(s: Seq<u8>, sig: u32, from: int)
    requires
        0 <= from,
    ensures
        first_sig_from(s, sig, from) is Some ==> {
            let k = first_sig_from(s, sig, from)->Some_0;
            &&& from <= k
            &&& sig_at(s, k, sig)
            &&& forall|j: int| from <= j < k ==> !sig_at(s, j, sig)
        },
        first_sig_from(s, sig, from) is None ==> forall|j: int| from <= j ==> !sig_at(s, j, sig),
    decreases s.len() - from,
{
    if from + 4 <= s.len() && !sig_at(s, from, sig) {
        lemma_scan_result(s, sig, from + 1);
    }
}

/// Where the four bytes at `i` hold `lower + upper * 0x10000`, they hold `sig` exactly when
/// each half matches.
proof fn lemma_halves(v: int, lower: int, upper: int, sig: u32)
    requires
        0 <= lower < 0x1_0000,
        0 <= upper < 0x1_0000,
        v == lower + upper * 0x1_0000,
    ensures
        (v == sig as int) <==> (lower == sig as int % 0x1_0000 && upper == sig as int / 0x1_0000),
{
    assert((v == sig as int) ==> (lower == sig as int % 0x1_0000 && upper == sig as int / 0x1_0000))
        by (nonlinear_arith)
        requires
            0 <= lower < 0x1_0000,
            0 <= upper < 0x1_0000,
            v == lower + upper * 0x1_0000,
    ;
}

/// The offset of the first occurrence of `signature` at or after `hint`, or
/// after the cursor's position when no hint is given. The cursor is not moved.
/// Fails with an end-of-stream error when there is no occurrence.
pub fn find_next_signature(reader: &ByteCursor, signature: u32, hint: Option<u64>) -> (r: Result<
    u64,
    ZipError,
>)
    ensures
        r == match first_sig_from(
            reader.data@,
            signature,
            match hint {
                Some(h) => h as int,
                None => reader.pos as int,
            },
        ) {
            Some(k) => Ok::<u64, ZipError>(k as u64),
            None => Err::<u64, ZipError>(eof()),
        },
{
    let start: u64 = match hint {
        Some(h) => h,
        None => reader.pos,
    };
    let ghost s = reader.data@;
    let total = reader.data.len();
    let len = total as u64;
    let sig_lower = (signature % 0x1_0000) as u16;
    let sig_upper = (signature / 0x1_0000) as u16;
    let mut i: u64 = start;
    while i < len && len - i >= 4
        invariant
            len == s.len(),
            total == s.len(),
            sig_lower as int == signature as int % 0x1_0000,
            sig_upper as int == signature as int / 0x1_0000,
            len == total,
            s == reader.data@,
            start == match hint {
                Some(h) => h,
                None => reader.pos,
            },
            start <= i,
            first_sig_from(s, signature, start as int) == first_sig_from(s, signature, i as int),
        decreases len - i,
    {
        let p = i as usize;
        // Match the low half first, and only then the high half.
        let lower = reader.data[p] as u16 + reader.data[p + 1] as u16 * 0x100;
        let upper = reader.data[p + 2] as u16 + reader.data[p + 3] as u16 * 0x100;
        proof {
            assert(u32_le(s, i as int) as int == lower as int + upper as int * 0x1_0000);
            lemma_halves(u32_le(s, i as int) as int, lower as int, upper as int, signature);
            assert(sig_at(s, i as int, signature) <==> (lower == sig_lower && upper == sig_upper));
        }
        if lower == sig_lower && upper == sig_upper {
            assert(first_sig_from(s, signature, i as int) == Some(i as int));
            return Ok(i);
        }
        i = i + 1;
    }
    Err(crate::ZipError::IOError(crate::IoErrorKind::UnexpectedEof))
}

// ---------------------------------------------------------------------------
// Text
// ---------------------------------------------------------------------------

/// Relies on `String::from_utf8`: it succeeds exactly on valid UTF-8, and the
/// text is then the characters that the bytes encode.
#[verifier::external_body]
fn text_of(bytes: Vec<u8>) -> (r: Option<String>)
    ensures
        r is Some <==> valid_utf8(bytes@),
        r matches Some(t) ==> t@ == decode_utf8(bytes@),
{
    String::from_utf8(bytes).ok()
}

/// Decodes a name, failing with the UTF-8 error.
fn decode_name(bytes: Vec<u8>) -> (r: Result<String, ZipError>)
    ensures
        valid_utf8(bytes@) ==> r is Ok && name_key(r->Ok_0@) == bytes@,
        !valid_utf8(bytes@) ==> r == Err::<String, ZipError>(ZipError::InvalidUtf8String),
{
    match text_of(bytes) {
        Some(t) => Ok(t),
        None => Err(ZipError::InvalidUtf8String),
    }
}

// ---------------------------------------------------------------------------
// End of central directory
// ---------------------------------------------------------------------------

/// The length of the comment of the end record at `e`.
pub open spec fn eocd_comment_len(s: Seq<u8>, e: int) -> int {
    u16_le(s, e + 20) as int
}

/// The end record at `e` lies whole inside the bytes.
pub open spec fn eocd_fits(s: Seq<u8>, e: int) -> bool {
    e + 22 <= s.len() && e + 22 + eocd_comment_len(s, e) <= s.len()
}

/// `r` holds the fields of the end record at `e`.
pub open spec fn eocd_at(s: Seq<u8>, e: int, r: EndOfCentralDirectory) -> bool {
    &&& r.disk_number == u16_le(s, e + 4)
    &&& r.disk_with_central_directory == u16_le(s, e + 6)
    &&& r.number_of_central_directory_records_on_this_disk == u16_le(s, e + 8)
    &&& r.total_number_of_central_directory_records == u16_le(s, e + 10)
    &&& r.size_of_central_directory == u32_le(s, e + 12)
    &&& r.offset_of_start_of_central_directory == u32_le(s, e + 16)
    &&& r.zip_file_comment@ == s.subrange(e + 22, e + 22 + eocd_comment_len(s, e))
}

/// Scans for the end record from the cursor's position and decodes it.
/// Fails with `EndOfCentralDirectoryNotFound` where there is no end signature,
/// and with an end-of-stream error where the record is cut short.
pub fn find_eocd(data: &mut ByteCursor) -> (r: Result<EndOfCentralDirectory, ZipError>)
    ensures
        final(data).data@ == old(data).data@,
        match first_sig_from(old(data).data@, EOCD_SIG, old(data).pos as int) {
            None => r == Err::<EndOfCentralDirectory, ZipError>(
                ZipError::EndOfCentralDirectoryNotFound,
            ),
            Some(e) => if eocd_fits(old(data).data@, e) {
                r is Ok && eocd_at(old(data).data@, e, r->Ok_0) && final(data).pos == e + 22
                    + eocd_comment_len(old(data).data@, e)
            } else {
                r == Err::<EndOfCentralDirectory, ZipError>(eof())
            },
        },
{
    let ghost s = data.data@;
    // The length of the bytes bounds every offset found in them.
    let _total = data.len();
    let offset = match find_next_signature(data, EOCD_SIG, None) {
        Ok(offset) => offset,
        Err(_) => return Err(ZipError::EndOfCentralDirectoryNotFound),
    };
    proof {
        lemma_scan_result(s, EOCD_SIG, old(data).pos as int);
        assert(sig_at(s, offset as int, EOCD_SIG));
        assert(offset + 4 <= s.len());
    }
    data.seek(offset + 4);
    let disk_number = match data.read_u16() {
        Ok(v) => v,
        Err(e) => return Err(e),
    };
    let disk_with_central_directory = match data.read_u16() {
        Ok(v) => v,
        Err(e) => return Err(e),
    };
    let on_this_disk = match data.read_u16() {
        Ok(v) => v,
        Err(e) => return Err(e),
    };
    let total = match data.read_u16() {
        Ok(v) => v,
        Err(e) => return Err(e),
    };
    let size_of_central_directory = match data.read_u32() {
        Ok(v) => v,
        Err(e) => return Err(e),
    };
    let offset_of_start = match data.read_u32() {
        Ok(v) => v,
        Err(e) => return Err(e),
    };
    let comment_len = match data.read_u16() {
        Ok(v) => v,
        Err(e) => return Err(e),
    };
    let zip_file_comment = match data.read_bytes(comment_len as usize) {
        Ok(v) => v,
        Err(e) => return Err(e),
    };
    Ok(EndOfCentralDirectory {
        disk_number,
        disk_with_central_directory,
        number_of_central_directory_records_on_this_disk: on_this_disk,
        total_number_of_central_directory_records: total,
        size_of_central_directory,
        offset_of_start_of_central_directory: offset_of_start,
        zip_file_comment,
    })
}

// ---------------------------------------------------------------------------
// Central directory entries
// ---------------------------------------------------------------------------

/// The fixed part of a central directory entry, in bytes.
pub open spec fn cd_fixed_len() -> int {
    46
}

pub open spec fn cd_name_len(s: Seq<u8>, o: int) -> int {
    u16_le(s, o + 28) as int
}

pub open spec fn cd_extra_len(s: Seq<u8>, o: int) -> int {
    u16_le(s, o + 30) as int
}

pub open spec fn cd_comment_len(s: Seq<u8>, o: int) -> int {
    u16_le(s, o + 32) as int
}

/// The number of bytes taken by the central directory entry at `o`.
pub open spec fn cd_record_len(s: Seq<u8>, o: int) -> int {
    cd_fixed_len() + cd_name_len(s, o) + cd_extra_len(s, o) + cd_comment_len(s, o)
}

/// The name bytes of the central directory entry at `o`.
pub open spec fn cd_name(s: Seq<u8>, o: int) -> Seq<u8> {
    s.subrange(o + 46, o + 46 + cd_name_len(s, o))
}

/// Why the central directory entry at `o` cannot be decoded, if it cannot.
pub open spec fn cd_failure(s: Seq<u8>, o: int) -> Option<ZipError> {
    if o + 4 > s.len() {
        Some(eof())
    } else if u32_le(s, o) != CD_SIG {
        Some(ZipError::InvalidSignature(u32_le(s, o)))
    } else if o + 46 > s.len() || o + 46 + cd_name_len(s, o) > s.len() {
        Some(eof())
    } else if !valid_utf8(cd_name(s, o)) {
        Some(ZipError::InvalidUtf8String)
    } else if o + cd_record_len(s, o) > s.len() {
        Some(eof())
    } else {
        None
    }
}

/// `cd` holds the fields of the central directory entry at `o`.
pub open spec fn cd_entry_at(s: Seq<u8>, o: int, cd: CentralDirectory) -> bool {
    let n = cd_name_len(s, o);
    let m = cd_extra_len(s, o);
    let k = cd_comment_len(s, o);
    &&& cd.offset == o
    &&& cd.version_made_by == u16_le(s, o + 4)
    &&& cd.version_needed_to_extract == u16_le(s, o + 6)
    &&& cd.flags == u16_le(s, o + 8)
    &&& cd.compression == u16_le(s, o + 10)
    &&& cd.last_mod_time == u16_le(s, o + 12)
    &&& cd.last_mod_date == u16_le(s, o + 14)
    &&& cd.crc32 == u32_le(s, o + 16)
    &&& cd.compressed_size == u32_le(s, o + 20)
    &&& cd.uncompressed_size == u32_le(s, o + 24)
    &&& cd.disk_number_start == u16_le(s, o + 34)
    &&& cd.internal_file_attributes == u16_le(s, o + 36)
    &&& cd.external_file_attributes == u32_le(s, o + 38)
    &&& cd.local_header_rel_offset == u32_le(s, o + 42)
    &&& name_key(cd.filename@) == cd_name(s, o)
    &&& cd.extra_field@ == s.subrange(o + 46 + n, o + 46 + n + m)
    &&& cd.file_comment@ == s.subrange(o + 46 + n + m, o + 46 + n + m + k)
    &&& cd.is_directory == (cd.uncompressed_size == 0)
    &&& cd.len == cd_record_len(s, o)
}

/// Decodes the central directory entry at `offset`, leaving the cursor just
/// after it. Fails with `InvalidSignature` where the entry's signature does
/// not match, with the UTF-8 error where its name is not UTF-8, and with an
/// end-of-stream error where it is cut short.
pub fn parse_central_dir(data: &mut ByteCursor, offset: u64) -> (r: Result<
    CentralDirectory,
    ZipError,
>)
    ensures
        final(data).data@ == old(data).data@,
        match cd_failure(old(data).data@, offset as int) {
            Some(e) => r == Err::<CentralDirectory, ZipError>(e),
            None => r is Ok && cd_entry_at(old(data).data@, offset as int, r->Ok_0)
                && final(data).pos == offset + cd_record_len(old(data).data@, offset as int),
        },
{
    data.seek(offset);
    let sig_candidate = match data.read_u32() {
        Ok(v) => v,
        Err(e) => return Err(e),
    };
    if sig_candidate != CD_SIG {
        return Err(ZipError::InvalidSignature(sig_candidate));
    }
    let version_made_by = match data.read_u16() {
        Ok(v) => v,
        Err(e) => return Err(e),
    };
    let version_needed_to_extract = match data.read_u16() {
        Ok(v) => v,
        Err(e) => return Err(e),
    };
    let flags = match data.read_u16() {
        Ok(v) => v,
        Err(e) => return Err(e),
    };
    let compression = match data.read_u16() {
        Ok(v) => v,
        Err(e) => return Err(e),
    };
    let last_mod_time = match data.read_u16() {
        Ok(v) => v,
        Err(e) => return Err(e),
    };
    let last_mod_date = match data.read_u16() {
        Ok(v) => v,
        Err(e) => return Err(e),
    };
    let crc32 = match data.read_u32() {
        Ok(v) => v,
        Err(e) => return Err(e),
    };
    let compressed_size = match data.read_u32() {
        Ok(v) => v,
        Err(e) => return Err(e),
    };
    let uncompressed_size = match data.read_u32() {
        Ok(v) => v,
        Err(e) => return Err(e),
    };
    // The lengths stand here; the fields they measure close the record.
    let fname_len = match data.read_u16() {
        Ok(v) => v,
        Err(e) => return Err(e),
    };
    let extra_len = match data.read_u16() {
        Ok(v) => v,
        Err(e) => return Err(e),
    };
    let comment_len = match data.read_u16() {
        Ok(v) => v,
        Err(e) => return Err(e),
    };
    let disk_number_start = match data.read_u16() {
        Ok(v) => v,
        Err(e) => return Err(e),
    };
    let internal_file_attributes = match data.read_u16() {
        Ok(v) => v,
        Err(e) => return Err(e),
    };
    let external_file_attributes = match data.read_u32() {
        Ok(v) => v,
        Err(e) => return Err(e),
    };
    let local_header_rel_offset = match data.read_u32() {
        Ok(v) => v,
        Err(e) => return Err(e),
    };
    let name_bytes = match data.read_bytes(fname_len as usize) {
        Ok(v) => v,
        Err(e) => return Err(e),
    };
    let filename = match decode_name(name_bytes) {
        Ok(v) => v,
        Err(e) => return Err(e),
    };
    let extra_field = match data.read_bytes(extra_len as usize) {
        Ok(v) => v,
        Err(e) => return Err(e),
    };
    let file_comment = match data.read_bytes(comment_len as usize) {
        Ok(v) => v,
        Err(e) => return Err(e),
    };
    let len = data.position() - offset;
    let is_directory = uncompressed_size == 0;
    Ok(CentralDirectory {
        offset,
        version_made_by,
        version_needed_to_extract,
        flags,
        compression,
        last_mod_time,
        last_mod_date,
        crc32,
        compressed_size,
        uncompressed_size,
        filename,
        extra_field,
        file_comment,
        disk_number_start,
        internal_file_attributes,
        external_file_attributes,
        local_header_rel_offset,
        is_directory,
        len,
    })
}

// ---------------------------------------------------------------------------
// Local file headers
// ---------------------------------------------------------------------------

pub open spec fn lfh_name_len(s: Seq<u8>, o: int) -> int {
    u16_le(s, o + 26) as int
}

pub open spec fn lfh_extra_len(s: Seq<u8>, o: int) -> int {
    u16_le(s, o + 28) as int
}

/// The offset just past the local header at `o`, where its payload starts.
pub open spec fn lfh_data_offset(s: Seq<u8>, o: int) -> int {
    o + 30 + lfh_name_len(s, o) + lfh_extra_len(s, o)
}

/// The name bytes of the local header at `o`.
pub open spec fn lfh_name(s: Seq<u8>, o: int) -> Seq<u8> {
    s.subrange(o + 30, o + 30 + lfh_name_len(s, o))
}

/// Why the local header at `o` cannot be decoded, if it cannot.
pub open spec fn lfh_failure(s: Seq<u8>, o: int) -> Option<ZipError> {
    if o + 4 > s.len() {
        Some(ZipError::InvalidEntry(o as u64))
    } else if u32_le(s, o) != LFH_SIG {
        Some(ZipError::InvalidSignature(u32_le(s, o)))
    } else if o + 30 > s.len() || o + 30 + lfh_name_len(s, o) > s.len() {
        Some(ZipError::InvalidEntry(o as u64))
    } else if !valid_utf8(lfh_name(s, o)) {
        Some(ZipError::InvalidUtf8String)
    } else if lfh_data_offset(s, o) > s.len() {
        Some(ZipError::InvalidEntry(o as u64))
    } else {
        None
    }
}

/// Bit 3 of the flags defers crc32 and sizes to a data descriptor.
pub open spec fn defers_sizes(flags: u16) -> bool {
    flags & 8 != 0
}

/// `h` holds the fields of the local header at `o`.
pub open spec fn lfh_at(s: Seq<u8>, o: int, h: LocalFileHeader) -> bool {
    let deferred = defers_sizes(u16_le(s, o + 6));
    &&& h.offset == o
    &&& h.version == u16_le(s, o + 4)
    &&& h.flags == u16_le(s, o + 6)
    &&& h.compression == u16_le(s, o + 8)
    &&& h.last_mod_time == u16_le(s, o + 10)
    &&& h.last_mod_date == u16_le(s, o + 12)
    &&& h.crc32 == if deferred {
        0
    } else {
        u32_le(s, o + 14)
    }
    &&& h.compressed_size == if deferred {
        0
    } else {
        u32_le(s, o + 18)
    }
    &&& h.uncompressed_size == if deferred {
        0
    } else {
        u32_le(s, o + 22)
    }
    &&& name_key(h.filename@) == lfh_name(s, o)
    &&& h.extra_field@ == s.subrange(o + 30 + lfh_name_len(s, o), lfh_data_offset(s, o))
    &&& h.data_offset == lfh_data_offset(s, o)
}

/// Reads through `r`, reporting a cut-short read as an invalid entry at `offset`.
fn within_entry<T>(r: Result<T, ZipError>, offset: u64) -> (out: Result<T, ZipError>)
    ensures
        r is Ok ==> out == r,
        r is Err ==> out == Err::<T, ZipError>(ZipError::InvalidEntry(offset)),
{
    match r {
        Ok(v) => Ok(v),
        Err(_) => Err(ZipError::InvalidEntry(offset)),
    }
}

/// Decodes the local header at `offset`, leaving the cursor at its payload.
/// Fails with `InvalidEntry(offset)` where the header is cut short, with
/// `InvalidSignature` where its signature does not match, and with the UTF-8
/// error where its name is not UTF-8. When bit 3 of the flags is set, crc32
/// and sizes are left at 0: only the central directory holds them then.
pub fn parse_header(data: &mut ByteCursor, offset: u64) -> (r: Result<LocalFileHeader, ZipError>)
    ensures
        final(data).data@ == old(data).data@,
        match lfh_failure(old(data).data@, offset as int) {
            Some(e) => r == Err::<LocalFileHeader, ZipError>(e),
            None => r is Ok && lfh_at(old(data).data@, offset as int, r->Ok_0) && final(data).pos
                == lfh_data_offset(old(data).data@, offset as int),
        },
{
    data.seek(offset);
    let sig_candidate = match within_entry(data.read_u32(), offset) {
        Ok(v) => v,
        Err(e) => return Err(e),
    };
    if sig_candidate != LFH_SIG {
        return Err(ZipError::InvalidSignature(sig_candidate));
    }
    let version = match within_entry(data.read_u16(), offset) {
        Ok(v) => v,
        Err(e) => return Err(e),
    };
    let flags = match within_entry(data.read_u16(), offset) {
        Ok(v) => v,
        Err(e) => return Err(e),
    };
    let compression = match within_entry(data.read_u16(), offset) {
        Ok(v) => v,
        Err(e) => return Err(e),
    };
    let last_mod_time = match within_entry(data.read_u16(), offset) {
        Ok(v) => v,
        Err(e) => return Err(e),
    };
    let last_mod_date = match within_entry(data.read_u16(), offset) {
        Ok(v) => v,
        Err(e) => return Err(e),
    };
    // The three fields are always laid out; with bit 3 they hold no values.
    let stored_crc32 = match within_entry(data.read_u32(), offset) {
        Ok(v) => v,
        Err(e) => return Err(e),
    };
    let stored_compressed = match within_entry(data.read_u32(), offset) {
        Ok(v) => v,
        Err(e) => return Err(e),
    };
    let stored_uncompressed = match within_entry(data.read_u32(), offset) {
        Ok(v) => v,
        Err(e) => return Err(e),
    };
    let deferred = flags & 8 != 0;
    let crc32: u32 = if deferred {
        0
    } else {
        stored_crc32
    };
    let compressed_size: u32 = if deferred {
        0
    } else {
        stored_compressed
    };
    let uncompressed_size: u32 = if deferred {
        0
    } else {
        stored_uncompressed
    };
    let fname_len = match within_entry(data.read_u16(), offset) {
        Ok(v) => v,
        Err(e) => return Err(e),
    };
    let extra_len = match within_entry(data.read_u16(), offset) {
        Ok(v) => v,
        Err(e) => return Err(e),
    };
    let name_bytes = match within_entry(data.read_bytes(fname_len as usize), offset) {
        Ok(v) => v,
        Err(e) => return Err(e),
    };
    let filename = match decode_name(name_bytes) {
        Ok(v) => v,
        Err(e) => return Err(e),
    };
    let extra_field = match within_entry(data.read_bytes(extra_len as usize), offset) {
        Ok(v) => v,
        Err(e) => return Err(e),
    };
    let data_offset = data.position();
    Ok(LocalFileHeader {
        offset,
        version,
        flags,
        compression,
        last_mod_time,
        last_mod_date,
        crc32,
        compressed_size,
        uncompressed_size,
        filename,
        extra_field,
        data_offset,
    })
}

// ---------------------------------------------------------------------------
// Walking the central directory
// ---------------------------------------------------------------------------

/// The central directory entries found by scanning from `from`, each scan
/// resuming just past the entry before, and the error that stopped the walk,
/// if one did. The walk ends cleanly where no further signature is found.
pub open spec fn cd_walk(s: Seq<u8>, from: int) -> (Seq<int>, Option<ZipError>)
    decreases s.len() - from,
{
    if from + 4 > s.len() {
        (Seq::empty(), None)
    } else if !sig_at(s, from, CD_SIG) {
        cd_walk(s, from + 1)
    } else if cd_failure(s, from) is Some {
        (Seq::empty(), cd_failure(s, from))
    } else {
        let rest = cd_walk(s, from + cd_record_len(s, from));
        (seq![from] + rest.0, rest.1)
    }
}

/// The walk from `from` is the walk from the first signature at or after it.
pub proof fn lemma_walk_from_signature(s: Seq<u8>, from: int)
    requires
        0 <= from,
    ensures
        first_sig_from(s, CD_SIG, from) is None ==> cd_walk(s, from) == (
            Seq::<int>::empty(),
            None::<ZipError>,
        ),
        first_sig_from(s, CD_SIG, from) matches Some(k) ==> cd_walk(s, from) == cd_walk(s, k),
    decreases s.len() - from,
{
    if from + 4 <= s.len() && !sig_at(s, from, CD_SIG) {
        lemma_walk_from_signature(s, from + 1);
    }
}

/// Among the entries at `offs`, the one at `j` is the last with its name.
pub open spec fn latest_with_name(s: Seq<u8>, offs: Seq<int>, j: int) -> bool {
    forall|j2: int| j < j2 < offs.len() ==> cd_name(s, #[trigger] offs[j2]) != cd_name(s, offs[j])
}

/// `idx` holds, under each name of the entries at `offs`, the last of them
/// with that name, and nothing else.
pub open spec fn indexes(idx: ZipIndex, s: Seq<u8>, offs: Seq<int>) -> bool {
    &&& forall|k: Seq<u8>|
        #[trigger] idx.lookup(k) is Some <==> exists|j: int|
            0 <= j < offs.len() && cd_name(s, offs[j]) == k
    &&& forall|j: int|
        0 <= j < offs.len() && latest_with_name(s, offs, j) ==> cd_entry_at(
            s,
            #[trigger] offs[j],
            idx.lookup(cd_name(s, offs[j]))->Some_0,
        )
}

/// Walks the central directory from `start`, collecting each entry under its
/// name, until no further signature is found or an entry fails to decode.
fn walk_central_directory(reader: &mut ByteCursor, start: u64) -> (r: (ZipIndex, Option<ZipError>))
    ensures
        final(reader).data@ == old(reader).data@,
        r.0.wf(),
        r.1 == cd_walk(old(reader).data@, start as int).1,
        indexes(r.0, old(reader).data@, cd_walk(old(reader).data@, start as int).0),
{
    let ghost s = reader.data@;
    // The length of the bytes bounds every offset found in them.
    let _total = reader.len();
    let mut index = ZipIndex::new(NameMap::new());
    let mut next: u64 = start;
    let ghost done: Seq<int> = Seq::empty();
    assert(done + cd_walk(s, start as int).0 =~= cd_walk(s, start as int).0);
    loop
        invariant
            reader.data@ == s,
            s == old(reader).data@,
            s.len() <= usize::MAX,
            index.wf(),
            indexes(index, s, done),
            cd_walk(s, start as int) == (done + cd_walk(s, next as int).0, cd_walk(
                s,
                next as int,
            ).1),
        decreases s.len() - next,
    {
        proof {
            lemma_walk_from_signature(s, next as int);
            lemma_scan_result(s, CD_SIG, next as int);
        }
        let offset = match find_next_signature(reader, CD_SIG, Some(next)) {
            Ok(offset) => offset,
            Err(_) => {
                assert(done + Seq::<int>::empty() =~= done);
                return (index, None);
            },
        };
        let header = match parse_central_dir(reader, offset) {
            Ok(header) => header,
            Err(e) => {
                assert(done + Seq::<int>::empty() =~= done);
                return (index, Some(e));
            },
        };
        let ghost old_index = index;
        let ghost kb = cd_name(s, offset as int);
        next = offset + header.len;
        index.insert(header.filename.clone(), header);
        proof {
            let nd = done.push(offset as int);
            assert forall|k: Seq<u8>| #[trigger] index.lookup(k) is Some <==> exists|j: int|
                0 <= j < nd.len() && cd_name(s, nd[j]) == k by {
                if k == kb {
                    assert(cd_name(s, nd[done.len() as int]) == k);
                } else if old_index.lookup(k) is Some {
                    let j = choose|j: int| 0 <= j < done.len() && cd_name(s, done[j]) == k;
                    assert(nd[j] == done[j]);
                } else if exists|j: int| 0 <= j < nd.len() && cd_name(s, nd[j]) == k {
                    let j = choose|j: int| 0 <= j < nd.len() && cd_name(s, nd[j]) == k;
                    assert(j < done.len());
                    assert(nd[j] == done[j]);
                }
            }
            assert forall|j: int|
                0 <= j < nd.len() && latest_with_name(s, nd, j) implies cd_entry_at(
                s,
                #[trigger] nd[j],
                index.lookup(cd_name(s, nd[j]))->Some_0,
            ) by {
                if j < done.len() {
                    assert(nd[j] == done[j]);
                    assert(cd_name(s, nd[done.len() as int]) != cd_name(s, nd[j]));
                    assert forall|j2: int| j < j2 < done.len() implies cd_name(
                        s,
                        #[trigger] done[j2],
                    ) != cd_name(s, done[j]) by {
                        assert(nd[j2] == done[j2]);
                    }
                }
            }
            assert(cd_walk(s, start as int).0 =~= nd + cd_walk(s, next as int).0);
            done = nd;
        }
    }
}

/// Indexes the central directory, walking it from `hint` (or from the start).
/// Fails with the error of the first entry that does not decode; ends
/// cleanly where no further entry signature is found.
pub fn index_archive(reader: &mut ByteCursor, hint: Option<u64>) -> (r: Result<ZipIndex, ZipError>)
    ensures
        final(reader).data@ == old(reader).data@,
        ({
            let w = cd_walk(
                old(reader).data@,
                match hint {
                    Some(h) => h as int,
                    None => 0,
                },
            );
            match w.1 {
                Some(e) => r == Err::<ZipIndex, ZipError>(e),
                None => r is Ok && r->Ok_0.wf() && indexes(r->Ok_0, old(reader).data@, w.0),
            }
        }),
{
    let start: u64 = match hint {
        Some(h) => h,
        None => 0,
    };
    reader.rewind();
    let (index, failure) = walk_central_directory(reader, start);
    match failure {
        Some(e) => Err(e),
        None => Ok(index),
    }
}

// ---------------------------------------------------------------------------
// Payloads
// ---------------------------------------------------------------------------

/// The stored bytes of the member that `cd` describes: the `compressed_size`
/// bytes after its local header, or why they cannot be read.
pub open spec fn payload_of(s: Seq<u8>, cd: CentralDirectory) -> Result<Seq<u8>, ZipError> {
    let lo = cd.local_header_rel_offset as int;
    match lfh_failure(s, lo) {
        Some(e) => Err(e),
        None => {
            let d = lfh_data_offset(s, lo);
            if d + cd.compressed_size > s.len() {
                Err(eof())
            } else {
                Ok(s.subrange(d, d + cd.compressed_size))
            }
        },
    }
}

/// Whether `r` is what `payload_of` describes.
pub open spec fn is_payload(r: Result<Vec<u8>, ZipError>, p: Result<Seq<u8>, ZipError>) -> bool {
    match p {
        Ok(b) => r is Ok && r->Ok_0@ == b,
        Err(e) => r == Err::<Vec<u8>, ZipError>(e),
    }
}

/// Reads a member's payload as stored, still compressed, by way of its local
/// header.
pub fn dump_file(data: &mut ByteCursor, file: &CentralDirectory) -> (r: Result<Vec<u8>, ZipError>)
    ensures
        final(data).data@ == old(data).data@,
        is_payload(r, payload_of(old(data).data@, *file)),
{
    let header = match get_local_file_header(data, file) {
        Ok(h) => h,
        Err(e) => return Err(e),
    };
    data.seek(header.data_offset);
    data.read_bytes(file.compressed_size as usize)
}

/// Decodes the local header of the member that `cd` describes.
pub fn get_local_file_header(data: &mut ByteCursor, cd: &CentralDirectory) -> (r: Result<
    LocalFileHeader,
    ZipError,
>)
    ensures
        final(data).data@ == old(data).data@,
        match lfh_failure(old(data).data@, cd.local_header_rel_offset as int) {
            Some(e) => r == Err::<LocalFileHeader, ZipError>(e),
            None => r is Ok && lfh_at(old(data).data@, cd.local_header_rel_offset as int, r->Ok_0),
        },
{
    parse_header(data, cd.local_header_rel_offset as u64)
}

// ---------------------------------------------------------------------------
// Recovery indexing
// ---------------------------------------------------------------------------

/// The local headers found by scanning forward from `from`: each signature
/// whose header decodes is taken, and the scan resumes at its payload; a
/// signature whose header does not decode is passed over.
pub open spec fn lfh_scan(s: Seq<u8>, from: int) -> Seq<int>
    decreases s.len() - from,
{
    if from + 4 > s.len() {
        Seq::empty()
    } else if !sig_at(s, from, LFH_SIG) || lfh_failure(s, from) is Some {
        lfh_scan(s, from + 1)
    } else {
        seq![from] + lfh_scan(s, lfh_data_offset(s, from))
    }
}

/// The scan from `from` is the scan from the first signature at or after it.
proof fn lemma_lfh_scan_from_signature(s: Seq<u8>, from: int)
    requires
        0 <= from,
    ensures
        first_sig_from(s, LFH_SIG, from) is None ==> lfh_scan(s, from) == Seq::<int>::empty(),
        first_sig_from(s, LFH_SIG, from) matches Some(k) ==> lfh_scan(s, from) == lfh_scan(s, k),
    decreases s.len() - from,
{
    if from + 4 <= s.len() && !sig_at(s, from, LFH_SIG) {
        lemma_lfh_scan_from_signature(s, from + 1);
    }
}

/// Among the local headers at `offs`, the one at `j` is the last with its name.
pub open spec fn latest_header_with_name(s: Seq<u8>, offs: Seq<int>, j: int) -> bool {
    forall|j2: int| j < j2 < offs.len() ==> lfh_name(s, #[trigger] offs[j2]) != lfh_name(s, offs[j])
}

/// `m` holds, under each name of the local headers at `offs`, the last of
/// them with that name, and nothing else.
pub open spec fn indexes_headers(m: NameMap<LocalFileHeader>, s: Seq<u8>, offs: Seq<int>) -> bool {
    &&& forall|k: Seq<u8>|
        #[trigger] m.lookup(k) is Some <==> exists|j: int|
            0 <= j < offs.len() && lfh_name(s, offs[j]) == k
    &&& forall|j: int|
        0 <= j < offs.len() && latest_header_with_name(s, offs, j) ==> lfh_at(
            s,
            #[trigger] offs[j],
            m.lookup(lfh_name(s, offs[j]))->Some_0,
        )
}

/// Collects every local header that the forward scan from `start` finds.
fn scan_local_headers(reader: &mut ByteCursor, start: u64) -> (r: NameMap<LocalFileHeader>)
    ensures
        final(reader).data@ == old(reader).data@,
        r.wf(),
        indexes_headers(r, old(reader).data@, lfh_scan(old(reader).data@, start as int)),
{
    let ghost s = reader.data@;
    // The length of the bytes bounds every offset found in them.
    let _total = reader.len();
    let mut index: NameMap<LocalFileHeader> = NameMap::new();
    let mut next: u64 = start;
    let ghost done: Seq<int> = Seq::empty();
    assert(done + lfh_scan(s, start as int) =~= lfh_scan(s, start as int));
    loop
        invariant
            reader.data@ == s,
            s == old(reader).data@,
            s.len() <= usize::MAX,
            index.wf(),
            indexes_headers(index, s, done),
            lfh_scan(s, start as int) == done + lfh_scan(s, next as int),
        decreases s.len() - next,
    {
        proof {
            lemma_lfh_scan_from_signature(s, next as int);
            lemma_scan_result(s, LFH_SIG, next as int);
        }
        let offset = match find_next_signature(reader, LFH_SIG, Some(next)) {
            Ok(offset) => offset,
            Err(_) => {
                assert(done + Seq::<int>::empty() =~= done);
                return index;
            },
        };
        match parse_header(reader, offset) {
            Ok(header) => {
                let ghost old_index = index;
                let ghost kb = lfh_name(s, offset as int);
                next = header.data_offset;
                index.insert(header.filename.clone(), header);
                proof {
                    let nd = done.push(offset as int);
                    assert forall|k: Seq<u8>| #[trigger] index.lookup(k) is Some <==> exists|j: int|
                        0 <= j < nd.len() && lfh_name(s, nd[j]) == k by {
                        if k == kb {
                            assert(lfh_name(s, nd[done.len() as int]) == k);
                        } else if old_index.lookup(k) is Some {
                            let j = choose|j: int| 0 <= j < done.len() && lfh_name(s, done[j]) == k;
                            assert(nd[j] == done[j]);
                        } else if exists|j: int| 0 <= j < nd.len() && lfh_name(s, nd[j]) == k {
                            let j = choose|j: int| 0 <= j < nd.len() && lfh_name(s, nd[j]) == k;
                            assert(j < done.len());
                            assert(nd[j] == done[j]);
                        }
                    }
                    assert forall|j: int|
                        0 <= j < nd.len() && latest_header_with_name(s, nd, j) implies lfh_at(
                        s,
                        #[trigger] nd[j],
                        index.lookup(lfh_name(s, nd[j]))->Some_0,
                    ) by {
                        if j < done.len() {
                            assert(nd[j] == done[j]);
                            assert(lfh_name(s, nd[done.len() as int]) != lfh_name(s, nd[j]));
                            assert forall|j2: int| j < j2 < done.len() implies lfh_name(
                                s,
                                #[trigger] done[j2],
                            ) != lfh_name(s, done[j]) by {
                                assert(nd[j2] == done[j2]);
                            }
                        }
                    }
                    assert(lfh_scan(s, start as int) =~= nd + lfh_scan(s, next as int));
                    done = nd;
                }
            },
            Err(_) => {
                next = offset + 1;
            },
        }
    }
}

/// What the recovery indexer holds under `k`: the central directory entry
/// where there is one, else the local header.
pub open spec fn merged_lookup(
    cd: Option<CentralDirectory>,
    lh: Option<LocalFileHeader>,
) -> Option<ZipEntry> {
    match cd {
        Some(c) => Some(ZipEntry::CentralDirectory(c)),
        None => match lh {
            Some(h) => Some(ZipEntry::LocalFileHeader(h)),
            None => None,
        },
    }
}

/// `res` holds the central directory entries at `cds` under their names and,
/// under each other name, the local header at `lhs` with it.
pub open spec fn recovers(res: NameMap<ZipEntry>, s: Seq<u8>, cds: Seq<int>, lhs: Seq<int>) -> bool {
    &&& forall|k: Seq<u8>|
        #[trigger] res.lookup(k) is Some <==> (exists|j: int|
            0 <= j < cds.len() && cd_name(s, cds[j]) == k) || (exists|j: int|
            0 <= j < lhs.len() && lfh_name(s, lhs[j]) == k)
    &&& forall|j: int|
        0 <= j < cds.len() && latest_with_name(s, cds, j) ==> {
            let e = res.lookup(cd_name(s, #[trigger] cds[j]));
            &&& e matches Some(ZipEntry::CentralDirectory(c))
            &&& cd_entry_at(s, cds[j], c)
        }
    &&& forall|j: int|
        0 <= j < lhs.len() && latest_header_with_name(s, lhs, j) && !(exists|i: int|
            0 <= i < cds.len() && cd_name(s, cds[i]) == lfh_name(s, lhs[j])) ==> {
            let e = res.lookup(lfh_name(s, #[trigger] lhs[j]));
            &&& e matches Some(ZipEntry::LocalFileHeader(h))
            &&& lfh_at(s, lhs[j], h)
        }
}

/// Index the archive forcibly, for archives whose end record is missing or
/// unreliable. The central directory is walked from the start of the bytes,
/// keeping the entries decoded before any failure, and every local header
/// signature is tried; a name found in the central directory takes its entry
/// from there. A local header signature may lie inside unrelated payload
/// bytes, so what this finds is advisory only. It does not fail.
pub fn intensive_index_archive(reader: &mut ByteCursor) -> (r: Result<NameMap<ZipEntry>, ZipError>)
    ensures
        final(reader).data@ == old(reader).data@,
        r is Ok,
        r->Ok_0.wf(),
        recovers(r->Ok_0, old(reader).data@, cd_walk(old(reader).data@, 0).0, lfh_scan(old(reader).data@, 0)),
{
    let ghost s = reader.data@;
    reader.rewind();
    let (cd_index, _) = walk_central_directory(reader, 0);
    let lh_index = scan_local_headers(reader, 0);
    let ghost cd_map = cd_index.0;
    let ghost lh_map = lh_index;
    let ghost cds = cd_walk(s, 0).0;
    let ghost lhs = lfh_scan(s, 0);
    let mut index: NameMap<ZipEntry> = NameMap::new();
    let mut cd_pairs = cd_index.0.into_pairs();
    let ghost ck = cd_map.keys();
    let ghost cv = cd_map.values_seq();
    while cd_pairs.len() > 0
        invariant
            cd_map.wf(),
            ck == cd_map.keys(),
            cv == cd_map.values_seq(),
            cd_pairs@.len() <= ck.len(),
            ck.len() == cv.len(),
            forall|i: int|
                0 <= i < cd_pairs@.len() ==> name_key((#[trigger] cd_pairs@[i]).0@) == ck[i]
                    && cd_pairs@[i].1 == cv[i],
            index.wf(),
            forall|q: Seq<u8>|
                #[trigger] index.lookup(q) == if (exists|j: int|
                    cd_pairs@.len() <= j < ck.len() && ck[j] == q) {
                    merged_lookup(cd_map.lookup(q), None)
                } else {
                    None
                },
        decreases cd_pairs@.len(),
    {
        let ghost n = cd_pairs@.len() - 1;
        let (k, v) = cd_pairs.pop().unwrap();
        proof {
            lemma_seq_lookup_at(ck, cv, n);
        }
        let ghost before = index;
        index.insert(k, ZipEntry::CentralDirectory(v));
        proof {
            assert forall|q: Seq<u8>| #[trigger] index.lookup(q) == if (exists|j: int|
                n <= j < ck.len() && ck[j] == q) {
                merged_lookup(cd_map.lookup(q), None)
            } else {
                None
            } by {
                if q != ck[n] {
                    assert(before.lookup(q) == index.lookup(q));
                    if exists|j: int| n <= j < ck.len() && ck[j] == q {
                        let j = choose|j: int| n <= j < ck.len() && ck[j] == q;
                        assert(j != n);
                    }
                } else {
                    assert(ck[n] == q);
                }
            }
        }
    }
    let mut lh_pairs = lh_index.into_pairs();
    let ghost lk = lh_map.keys();
    let ghost lv = lh_map.values_seq();
    proof {
        assert forall|q: Seq<u8>| #[trigger] index.lookup(q) == merged_lookup(cd_map.lookup(q), None) by {
            if cd_map.lookup(q) is Some {
                assert(ck.contains(q));
                let j = choose|j: int| 0 <= j < ck.len() && ck[j] == q;
                assert(0 <= j < ck.len() && ck[j] == q);
            }
        }
    }
    while lh_pairs.len() > 0
        invariant
            cd_map.wf(),
            lh_map.wf(),
            lk == lh_map.keys(),
            lv == lh_map.values_seq(),
            lh_pairs@.len() <= lk.len(),
            lk.len() == lv.len(),
            forall|i: int|
                0 <= i < lh_pairs@.len() ==> name_key((#[trigger] lh_pairs@[i]).0@) == lk[i]
                    && lh_pairs@[i].1 == lv[i],
            index.wf(),
            forall|q: Seq<u8>|
                #[trigger] index.lookup(q) == merged_lookup(
                    cd_map.lookup(q),
                    if (exists|j: int| lh_pairs@.len() <= j < lk.len() && lk[j] == q) {
                        lh_map.lookup(q)
                    } else {
                        None
                    },
                ),
        decreases lh_pairs@.len(),
    {
        let ghost n = lh_pairs@.len() - 1;
        let (k, v) = lh_pairs.pop().unwrap();
        proof {
            lemma_seq_lookup_at(lk, lv, n);
        }
        let ghost before = index;
        if !index.contains(k.as_str()) {
            index.insert(k, ZipEntry::LocalFileHeader(v));
        }
        proof {
            assert forall|q: Seq<u8>| #[trigger] index.lookup(q) == merged_lookup(
                cd_map.lookup(q),
                if (exists|j: int| n <= j < lk.len() && lk[j] == q) {
                    lh_map.lookup(q)
                } else {
                    None
                },
            ) by {
                if q != lk[n] {
                    if exists|j: int| n <= j < lk.len() && lk[j] == q {
                        let j = choose|j: int| n <= j < lk.len() && lk[j] == q;
                        assert(j != n);
                    }
                } else {
                    assert(lk[n] == q);
                }
            }
        }
    }
    proof {
        assert forall|q: Seq<u8>| #[trigger] index.lookup(q) == merged_lookup(
            cd_map.lookup(q),
            lh_map.lookup(q),
        ) by {
            if lh_map.lookup(q) is Some {
                assert(lk.contains(q));
                let j = choose|j: int| 0 <= j < lk.len() && lk[j] == q;
                assert(0 <= j < lk.len() && lk[j] == q);
            }
        }
        assert forall|k: Seq<u8>| #[trigger] index.lookup(k) is Some <==> (exists|j: int|
            0 <= j < cds.len() && cd_name(s, cds[j]) == k) || (exists|j: int|
            0 <= j < lhs.len() && lfh_name(s, lhs[j]) == k) by {
            assert(index.lookup(k) == merged_lookup(cd_map.lookup(k), lh_map.lookup(k)));
            assert(cd_index.lookup(k) == cd_map.lookup(k));
            assert(cd_index.lookup(k) is Some <==> exists|j: int|
                0 <= j < cds.len() && cd_name(s, cds[j]) == k);
            assert(lh_map.lookup(k) is Some <==> exists|j: int|
                0 <= j < lhs.len() && lfh_name(s, lhs[j]) == k);
        }
        assert forall|j: int|
            0 <= j < cds.len() && latest_with_name(s, cds, j) implies {
            let e = index.lookup(cd_name(s, #[trigger] cds[j]));
            &&& e matches Some(ZipEntry::CentralDirectory(c))
            &&& cd_entry_at(s, cds[j], c)
        } by {
            assert(cd_index.lookup(cd_name(s, cds[j])) is Some);
        }
        assert forall|j: int|
            0 <= j < lhs.len() && latest_header_with_name(s, lhs, j) && !(exists|i: int|
                0 <= i < cds.len() && cd_name(s, cds[i]) == lfh_name(s, lhs[j])) implies {
            let e = index.lookup(lfh_name(s, #[trigger] lhs[j]));
            &&& e matches Some(ZipEntry::LocalFileHeader(h))
            &&& lfh_at(s, lhs[j], h)
        } by {
            assert(lh_map.lookup(lfh_name(s, lhs[j])) is Some);
            assert(cd_index.lookup(lfh_name(s, lhs[j])) is None);
        }
    }
    Ok(index)
}

} // verus!
