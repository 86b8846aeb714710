use ziplayer::codecs::gzip_codec::GzipCodec;
use ziplayer::codecs::zstd_codec::ZstdCodec;
use ziplayer::compression_codecs::{CompressionCodec, NoCompressionCodec};
use ziplayer::cursor::ByteCursor;
use ziplayer::name_map::{bytes_equal, bytes_less, NameMap};
use ziplayer::read::{
    dump_file, find_eocd, find_next_signature, index_archive, intensive_index_archive,
    parse_central_dir, parse_header,
};
use ziplayer::reader::{extract_file, ExtractStep, ZipEntryInfo, ZipIndex, ZipReader};
use ziplayer::structures::ZipEntry;
use ziplayer::{IoErrorKind, ZipError, CD_SIG, EOCD_SIG, LFH_SIG};

/// One member of a synthetic archive.
struct Member {
    name: Vec<u8>,
    payload: Vec<u8>,
    method: u16,
    uncompressed: u32,
    flags: u16,
}

fn stored(name: &str, payload: &[u8]) -> Member {
    Member {
        name: name.as_bytes().to_vec(),
        payload: payload.to_vec(),
        method: 0,
        uncompressed: payload.len() as u32,
        flags: 0,
    }
}

fn put16(out: &mut Vec<u8>, v: u16) {
    out.extend_from_slice(&v.to_le_bytes());
}

fn put32(out: &mut Vec<u8>, v: u32) {
    out.extend_from_slice(&v.to_le_bytes());
}

fn local_header(out: &mut Vec<u8>, m: &Member) {
    put32(out, LFH_SIG);
    put16(out, 20);
    put16(out, m.flags);
    put16(out, m.method);
    put16(out, 0x6000);
    put16(out, 0x5821);
    put32(out, 0xDEADBEEF);
    put32(out, m.payload.len() as u32);
    put32(out, m.uncompressed);
    put16(out, m.name.len() as u16);
    put16(out, 0);
    out.extend_from_slice(&m.name);
}

fn central_entry(out: &mut Vec<u8>, m: &Member, local_offset: u32) {
    put32(out, CD_SIG);
    put16(out, 20);
    put16(out, 20);
    put16(out, m.flags);
    put16(out, m.method);
    put16(out, 0x6000);
    put16(out, 0x5821);
    put32(out, 0xDEADBEEF);
    put32(out, m.payload.len() as u32);
    put32(out, m.uncompressed);
    put16(out, m.name.len() as u16);
    put16(out, 0);
    put16(out, 0);
    put16(out, 0);
    put16(out, 0);
    put32(out, if m.uncompressed == 0 { 0x10 } else { 0x20 });
    put32(out, local_offset);
    out.extend_from_slice(&m.name);
}

fn end_record(out: &mut Vec<u8>, count: u16, cd_size: u32, cd_offset: u32) {
    put32(out, EOCD_SIG);
    put16(out, 0);
    put16(out, 0);
    put16(out, count);
    put16(out, count);
    put32(out, cd_size);
    put32(out, cd_offset);
    put16(out, 0);
}

/// A complete archive of `members`, central directory in the order given.
fn archive(members: &[Member]) -> Vec<u8> {
    let mut out = Vec::new();
    let mut offsets = Vec::new();
    for m in members {
        offsets.push(out.len() as u32);
        local_header(&mut out, m);
        out.extend_from_slice(&m.payload);
    }
    let cd_offset = out.len() as u32;
    for (m, off) in members.iter().zip(offsets.iter()) {
        central_entry(&mut out, m, *off);
    }
    let cd_size = out.len() as u32 - cd_offset;
    end_record(&mut out, members.len() as u16, cd_size, cd_offset);
    out
}

fn hello_archive() -> Vec<u8> {
    archive(&[stored("hello.txt", b"hello")])
}

#[test]
fn test_find_sig_aligned() {
    let data: [u8; 168] = [
        0x00, 0x2F, 0x6D, 0x61, 0x78, 0x5F, 0x73, 0x69, 0x7A, 0x65, 0x2E, 0x72, 0x73, 0x55,
        0x54, 0x05, 0x00, 0x01, 0xA9, 0xBA, 0xEE, 0x63, 0x50, 0x4B, 0x01, 0x02, 0x00, 0x00,
        0x0A, 0x00, 0x00, 0x00, 0x08, 0x00, 0xC8, 0x7A, 0x50, 0x56, 0xDB, 0x87, 0xEE, 0xBA,
        0x1A, 0x02, 0x00, 0x00, 0x8C, 0x09, 0x00, 0x00, 0x1D, 0x00, 0x09, 0x00, 0x00, 0x00,
        0x00, 0x00, 0x01, 0x00, 0x00, 0x00, 0x00, 0x00, 0xF5, 0xEC, 0x00, 0x00, 0x70, 0x6F,
        0x73, 0x74, 0x63, 0x61, 0x72, 0x64, 0x2D, 0x6D, 0x61, 0x69, 0x6E, 0x2F, 0x74, 0x65,
        0x73, 0x74, 0x73, 0x2F, 0x73, 0x63, 0x68, 0x65, 0x6D, 0x61, 0x2E, 0x72, 0x73, 0x55,
        0x54, 0x05, 0x00, 0x01, 0xA9, 0xBA, 0xEE, 0x63, 0x50, 0x4B, 0x05, 0x06, 0x00, 0x00,
        0x00, 0x00, 0x2C, 0x00, 0x2C, 0x00, 0x82, 0x0E, 0x00, 0x00, 0x53, 0xEF, 0x00, 0x00,
        0x28, 0x00, 0x61, 0x31, 0x63, 0x33, 0x61, 0x66, 0x34, 0x37, 0x61, 0x65, 0x63, 0x34,
        0x33, 0x33, 0x61, 0x34, 0x30, 0x30, 0x62, 0x39, 0x38, 0x37, 0x31, 0x38, 0x64, 0x36,
        0x37, 0x65, 0x32, 0x62, 0x38, 0x38, 0x33, 0x61, 0x36, 0x36, 0x38, 0x64, 0x37, 0x37,
    ];

    let reader = ByteCursor::new(data.to_vec());
    let eocd = find_next_signature(&reader, EOCD_SIG, None).unwrap();
    println!("EOCD: {}", eocd);
    assert_eq!(eocd, 0x6A);
}

#[test]
fn scan_finds_offset_from_every_hint_before_it() {
    let mut data = vec![0u8; 10];
    data.extend_from_slice(&[0x50, 0x4B, 0x05, 0x06]);
    data.extend_from_slice(&[0u8; 6]);
    let reader = ByteCursor::new(data);
    for hint in 0..=10u64 {
        assert_eq!(find_next_signature(&reader, EOCD_SIG, Some(hint)), Ok(10));
    }
    assert_eq!(
        find_next_signature(&reader, EOCD_SIG, Some(11)),
        Err(ZipError::IOError(IoErrorKind::UnexpectedEof))
    );
}

#[test]
fn scan_finds_signature_after_a_partial_match() {
    let reader = ByteCursor::new(vec![0x50, 0x50, 0x4B, 0x05, 0x06, 0x00]);
    assert_eq!(find_next_signature(&reader, EOCD_SIG, None), Ok(1));
}

#[test]
fn scan_leaves_cursor_in_place_and_starts_there() {
    let mut data = vec![0x50, 0x4B, 0x05, 0x06];
    data.extend_from_slice(&[0u8; 4]);
    data.extend_from_slice(&[0x50, 0x4B, 0x05, 0x06]);
    let mut reader = ByteCursor::new(data);
    reader.seek(1);
    assert_eq!(find_next_signature(&reader, EOCD_SIG, None), Ok(8));
    assert_eq!(reader.position(), 1);
}

#[test]
fn end_to_end_stored_file() {
    let mut reader = ZipReader::new(hello_archive()).unwrap();
    let listing = reader.list();
    assert_eq!(listing.len(), 1);
    assert_eq!(listing[0].0.as_str(), "hello.txt");
    assert_eq!(listing[0].1.compressed_size, 5);
    assert_eq!(listing[0].1.uncompressed_size, 5);
    assert!(!listing[0].1.is_directory);
    assert_eq!(reader.dump_file("hello.txt").unwrap(), b"hello".to_vec());
    assert_eq!(
        reader.extract_file("hello.txt", &NoCompressionCodec).unwrap(),
        b"hello".to_vec()
    );
    let entry = reader.index().get("hello.txt").unwrap().clone();
    assert_eq!(
        reader.extract_to_checked(&entry, true, false, &NoCompressionCodec).unwrap(),
        b"hello".to_vec()
    );
}

#[test]
fn list_is_stable_across_reads() {
    let data = archive(&[stored("b.txt", b"bee"), stored("a.txt", b"ay")]);
    let mut reader = ZipReader::new(data).unwrap();
    let first: Vec<(String, u32, u64)> = reader
        .list()
        .iter()
        .map(|(p, e)| (p.to_string(), e.crc32, e.offset))
        .collect();
    reader.dump_file("a.txt").unwrap();
    let second: Vec<(String, u32, u64)> = reader
        .list()
        .iter()
        .map(|(p, e)| (p.to_string(), e.crc32, e.offset))
        .collect();
    assert_eq!(first, second);
    assert_eq!(first[0].0, "a.txt");
    assert_eq!(first[1].0, "b.txt");
}

#[test]
fn walk_counts_declared_members() {
    let data = archive(&[
        stored("one", b"1"),
        stored("two", b"22"),
        stored("three", b"333"),
    ]);
    let mut cursor = ByteCursor::new(data.clone());
    let eocd = find_eocd(&mut cursor).unwrap();
    assert_eq!(eocd.total_number_of_central_directory_records, 3);
    let index = index_archive(
        &mut cursor,
        Some(eocd.offset_of_start_of_central_directory as u64),
    )
    .unwrap();
    assert_eq!(index.len(), eocd.total_number_of_central_directory_records as usize);
    assert_eq!(ZipReader::new(data).unwrap().index().len(), 3);
}

#[test]
fn missing_end_record_fails_but_recovery_succeeds() {
    let mut data = Vec::new();
    local_header(&mut data, &stored("lost.txt", b"data"));
    data.extend_from_slice(b"data");
    match ZipReader::new(data.clone()) {
        Err(e) => assert_eq!(e, ZipError::EndOfCentralDirectoryNotFound),
        Ok(_) => panic!("an archive without an end record opened"),
    }
    let mut cursor = ByteCursor::new(data);
    let recovered = intensive_index_archive(&mut cursor).unwrap();
    assert_eq!(recovered.len(), 1);
    match recovered.get("lost.txt") {
        Some(ZipEntry::LocalFileHeader(h)) => {
            assert_eq!(h.compressed_size, 4);
            assert_eq!(h.data_offset, 38);
        }
        _ => panic!("the local header was not recovered"),
    }
}

#[test]
fn recovery_of_garbage_is_empty() {
    let mut cursor = ByteCursor::new(vec![1, 2, 3, 0x50, 0x4B, 0x03, 0x04, 9]);
    let recovered = intensive_index_archive(&mut cursor).unwrap();
    assert!(recovered.is_empty());
}

#[test]
fn recovery_prefers_central_directory() {
    let mut cursor = ByteCursor::new(hello_archive());
    let recovered = intensive_index_archive(&mut cursor).unwrap();
    assert_eq!(recovered.len(), 1);
    assert!(matches!(
        recovered.get("hello.txt"),
        Some(ZipEntry::CentralDirectory(_))
    ));
}

#[test]
fn codec_mismatch_is_refused_before_reading() {
    let mut reader = ZipReader::new(hello_archive()).unwrap();
    let zstd = ZstdCodec::new(3).unwrap();
    assert_eq!(
        reader.extract_file("hello.txt", &zstd),
        Err(ZipError::MismatchedCompressionMethod(0, 93))
    );
    let entry = reader.index().get("hello.txt").unwrap().clone();
    assert_eq!(
        reader.extract_to_checked(&entry, true, false, &zstd),
        Err(ZipError::MismatchedCompressionMethod(0, 93))
    );
}

#[test]
fn extraction_checks_destination() {
    let data = hello_archive();
    let mut reader = ZipReader::new(data.clone()).unwrap();
    let entry = reader.index().get("hello.txt").unwrap().clone();
    assert_eq!(
        reader.extract_to_checked(&entry, false, false, &NoCompressionCodec),
        Err(ZipError::IOError(IoErrorKind::NotFound))
    );
    let mut cursor = ByteCursor::new(data);
    assert_eq!(
        extract_file(&mut cursor, &entry, true, true, &NoCompressionCodec),
        Err(ZipError::IOError(IoErrorKind::AlreadyExists))
    );
}

fn step_names(steps: &[ExtractStep]) -> Vec<(bool, String)> {
    steps
        .iter()
        .map(|s| match s {
            ExtractStep::CreateDir(e) => (true, e.filename.clone()),
            ExtractStep::WriteFile(e) => (false, e.filename.clone()),
        })
        .collect()
}

#[test]
fn directories_are_created_before_files() {
    let data = archive(&[
        stored("a/b.txt", b"bee"),
        stored("a/", b""),
        stored("0.txt", b"zero"),
        stored("z/", b""),
    ]);
    let reader = ZipReader::new(data).unwrap();
    let names = step_names(&reader.extract_all_files());
    assert_eq!(
        names,
        vec![
            (true, "a/".to_string()),
            (true, "z/".to_string()),
            (false, "0.txt".to_string()),
            (false, "a/b.txt".to_string()),
        ]
    );
}

#[test]
fn duplicate_paths_keep_the_later_entry() {
    let data = archive(&[stored("dup.txt", b"first"), stored("dup.txt", b"second!")]);
    let reader = ZipReader::new(data).unwrap();
    assert_eq!(reader.index().len(), 1);
    assert_eq!(reader.index().get("dup.txt").unwrap().compressed_size, 7);
}

#[test]
fn index_insert_replaces() {
    let data = hello_archive();
    let mut cursor = ByteCursor::new(data);
    let first = parse_central_dir(&mut cursor, 44).unwrap();
    let mut second = first.clone();
    second.crc32 = 7;
    let mut index = ZipIndex::new(NameMap::new());
    assert!(index.insert("x".to_string(), first).is_none());
    let replaced = index.insert("x".to_string(), second).unwrap();
    assert_eq!(replaced.crc32, 0xDEADBEEF);
    assert_eq!(index.get("x").unwrap().crc32, 7);
    assert!(index.contains("x"));
    assert!(!index.contains("y"));
    assert_eq!(index.len(), 1);
}

#[test]
fn central_entry_fields() {
    let mut cursor = ByteCursor::new(hello_archive());
    let cd = parse_central_dir(&mut cursor, 44).unwrap();
    assert_eq!(cd.offset, 44);
    assert_eq!(cd.compression, 0);
    assert_eq!(cd.last_mod_time, 0x6000);
    assert_eq!(cd.last_mod_date, 0x5821);
    assert_eq!(cd.crc32, 0xDEADBEEF);
    assert_eq!(cd.filename, "hello.txt");
    assert_eq!(cd.external_file_attributes, 0x20);
    assert_eq!(cd.local_header_rel_offset, 0);
    assert_eq!(cd.len, 55);
    assert_eq!(cursor.position(), 99);
}

#[test]
fn wrong_signature_is_reported() {
    let mut cursor = ByteCursor::new(hello_archive());
    assert_eq!(
        parse_central_dir(&mut cursor, 0).err(),
        Some(ZipError::InvalidSignature(LFH_SIG))
    );
    assert_eq!(
        parse_header(&mut cursor, 44).err(),
        Some(ZipError::InvalidSignature(CD_SIG))
    );
}

#[test]
fn truncated_records() {
    let data = hello_archive();
    let mut cursor = ByteCursor::new(data[..20].to_vec());
    assert_eq!(parse_header(&mut cursor, 0).err(), Some(ZipError::InvalidEntry(0)));
    assert_eq!(parse_header(&mut cursor, 18).err(), Some(ZipError::InvalidEntry(18)));
    let mut cursor = ByteCursor::new(data[..60].to_vec());
    assert_eq!(
        parse_central_dir(&mut cursor, 44).err(),
        Some(ZipError::IOError(IoErrorKind::UnexpectedEof))
    );
    let mut cursor = ByteCursor::new(data[..110].to_vec());
    assert_eq!(
        find_eocd(&mut cursor).unwrap_err(),
        ZipError::IOError(IoErrorKind::UnexpectedEof)
    );
}

#[test]
fn invalid_utf8_name() {
    let mut m = stored("x", b"1");
    m.name = vec![0xFF, 0xFE];
    let mut cursor = ByteCursor::new(archive(&[m]));
    assert_eq!(parse_header(&mut cursor, 0).err(), Some(ZipError::InvalidUtf8String));
    assert_eq!(
        ZipReader::new(cursor.data.clone()).err(),
        Some(ZipError::InvalidUtf8String)
    );
}

#[test]
fn deferred_sizes_read_as_zero() {
    let mut m = stored("d.txt", b"abc");
    m.flags = 8;
    let mut cursor = ByteCursor::new(archive(&[m]));
    let h = parse_header(&mut cursor, 0).unwrap();
    assert_eq!(h.crc32, 0);
    assert_eq!(h.compressed_size, 0);
    assert_eq!(h.uncompressed_size, 0);
    assert_eq!(h.filename, "d.txt");
    assert_eq!(h.data_offset, 35);
}

#[test]
fn raw_bytes_of_missing_entry() {
    let mut reader = ZipReader::new(hello_archive()).unwrap();
    assert_eq!(
        reader.dump_file("nope"),
        Err(ZipError::EntryNotFound("nope".to_string()))
    );
    assert_eq!(
        reader.file_info("nope").err(),
        Some(ZipError::EntryNotFound("nope".to_string()))
    );
}

#[test]
fn raw_bytes_past_the_end() {
    let data = hello_archive();
    let mut cursor = ByteCursor::new(data);
    let mut cd = parse_central_dir(&mut cursor, 44).unwrap();
    cd.compressed_size = 500;
    assert_eq!(
        dump_file(&mut cursor, &cd),
        Err(ZipError::IOError(IoErrorKind::UnexpectedEof))
    );
}

#[test]
fn entry_info_from_attributes() {
    let mut cursor = ByteCursor::new(hello_archive());
    let cd = parse_central_dir(&mut cursor, 44).unwrap();
    let info = ZipEntryInfo::from_central_dir(&cd);
    assert_eq!(info.name, "hello.txt");
    assert!(!info.is_dir);
    assert!(info.is_file);
    assert!(!info.is_symlink);
    assert!(!info.is_compressed);
    assert_eq!(info.size, 5);
    assert_eq!(info.compressed_size, 5);
    assert_eq!(info.compression_method, 0);
    assert_eq!(info.last_modified, 0x5821);
    assert_eq!(info.offset, 0);
    assert!(info.comment.is_none());
}

#[test]
fn zstd_codec_round_trip() {
    let codec = ZstdCodec::new(3).unwrap();
    assert_eq!(codec.int_id(), 93);
    let text = b"zip zip zip zip zip zip zip zip".to_vec();
    let packed = codec.compress((&text, text.len())).unwrap();
    assert_ne!(packed, text);
    let unpacked = codec.expand((&packed, packed.len())).unwrap();
    assert_eq!(unpacked, text);
    assert!(codec.expand((&text, text.len())).is_err());
}

#[test]
fn zstd_member_extracts() {
    let codec = ZstdCodec::new(5).unwrap();
    let text = b"compressed member".to_vec();
    let packed = codec.compress((&text, text.len())).unwrap();
    let member = Member {
        name: b"z.bin".to_vec(),
        payload: packed.clone(),
        method: 93,
        uncompressed: text.len() as u32,
        flags: 0,
    };
    let mut reader = ZipReader::new(archive(&[member])).unwrap();
    assert_eq!(reader.dump_file("z.bin").unwrap(), packed);
    assert_eq!(reader.extract_file("z.bin", &codec).unwrap(), text);
}

#[test]
fn zstd_level_is_checked() {
    assert_eq!(
        ZstdCodec::new(1000).err(),
        Some(ZipError::InvalidCompressionLevel(1000))
    );
    assert_eq!(ZstdCodec::new(-5).unwrap().level, -5);
    assert_eq!(
        ZstdCodec::with_level_in(23, 1, 22).err(),
        Some(ZipError::InvalidCompressionLevel(23))
    );
    assert_eq!(ZstdCodec::with_level_in(22, 1, 22).unwrap().level, 22);
}

#[test]
fn gzip_codec_is_unavailable() {
    let codec = GzipCodec::new(6);
    assert_eq!(codec.level, 6);
    assert_eq!(codec.int_id(), 8);
    let data = vec![1u8, 2, 3];
    assert_eq!(
        codec.expand((&data, 3)),
        Err(ZipError::InvalidCompressionMethod(8))
    );
    assert_eq!(
        codec.compress((&data, 3)),
        Err(ZipError::InvalidCompressionMethod(8))
    );
}

#[test]
fn identity_codec_passes_bytes() {
    let data = vec![9u8, 8, 7];
    assert_eq!(NoCompressionCodec.int_id(), 0);
    assert_eq!(NoCompressionCodec.compress((&data, 3)).unwrap(), data);
    assert_eq!(NoCompressionCodec.expand((&data, 3)).unwrap(), data);
}

#[test]
fn error_codes_are_stable() {
    assert_eq!(ZipError::IOError(IoErrorKind::Other).error_code(), 1);
    assert_eq!(ZipError::InvalidSignature(0).error_code(), 2);
    assert_eq!(ZipError::EntryNotFound("a".to_string()).error_code(), 3);
    assert_eq!(ZipError::EndOfCentralDirectoryNotFound.error_code(), 4);
    assert_eq!(ZipError::InvalidEntry(0).error_code(), 5);
    assert_eq!(ZipError::InvalidCompressionMethod(0).error_code(), 6);
    assert_eq!(ZipError::MismatchedCompressionMethod(0, 1).error_code(), 7);
    assert_eq!(ZipError::InvalidCompressionLevel(0).error_code(), 8);
    assert_eq!(ZipError::InvalidUtf8String.error_code(), 9);
    assert_eq!(ZipError::UnknownError(0, "x".to_string()).error_code(), 0xFFFF);
}

#[test]
fn errors_compare_by_value() {
    assert_eq!(ZipError::InvalidEntry(3), ZipError::InvalidEntry(3));
    assert_ne!(ZipError::InvalidEntry(3), ZipError::InvalidEntry(4));
    assert_ne!(ZipError::InvalidEntry(3), ZipError::InvalidSignature(3));
    assert_eq!(
        ZipError::EntryNotFound("p".to_string()),
        ZipError::EntryNotFound("p".to_string())
    );
}

#[test]
fn byte_order_of_names() {
    assert!(bytes_less(b"a.b", b"a/b"));
    assert!(bytes_less(b"a", b"ab"));
    assert!(!bytes_less(b"ab", b"ab"));
    assert!(!bytes_less(b"b", b"a"));
    assert!(bytes_equal(b"ab", b"ab"));
    assert!(!bytes_equal(b"ab", b"abc"));
}

#[test]
fn cursor_reads_little_endian() {
    let mut c = ByteCursor::new(vec![0x34, 0x12, 0x78, 0x56, 0x34, 0x12, 0xAA]);
    assert_eq!(c.read_u16(), Ok(0x1234));
    assert_eq!(c.read_u32(), Ok(0x12345678));
    assert_eq!(
        c.read_u16(),
        Err(ZipError::IOError(IoErrorKind::UnexpectedEof))
    );
    assert_eq!(c.position(), 6);
    assert_eq!(c.read_u8(), Ok(0xAA));
    c.rewind();
    assert_eq!(c.read_bytes(2), Ok(vec![0x34, 0x12]));
}
