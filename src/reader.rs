//! The index of an archive, and the reader that owns an open archive.
use vstd::prelude::*;

use crate::compression_codecs::CompressionCodec;
use crate::cursor::{eof, u16_le, u32_le, ByteCursor};
use crate::name_map::{name_key, NameMap};
use crate::read::{
    cd_failure, cd_name, cd_record_len, cd_walk, dump_file, eocd_fits, find_eocd, first_sig_from,
    index_archive, indexes, is_payload, lemma_scan_result, lemma_walk_from_signature, payload_of,
    sig_at,
};
use crate::structures::CentralDirectory;
use crate::{IoErrorKind, ZipError, CD_SIG, EOCD_SIG};

verus! {

/// The archive's members by path, in the byte order of the paths.
pub struct ZipIndex(pub NameMap<CentralDirectory>);

/// Whether `e` is a directory entry.
pub open spec fn is_dir_entry(e: CentralDirectory) -> bool {
    e.is_directory
}

/// Whether `e` is a file entry.
pub open spec fn is_file_entry(e: CentralDirectory) -> bool {
    !e.is_directory
}

/// The values that the references in `r` point to.
pub open spec fn derefs(r: Seq<&CentralDirectory>) -> Seq<CentralDirectory> {
    r.map_values(|e: &CentralDirectory| *e)
}

/// Keeps the directory entries, or the file entries.
pub open spec fn kind_filter(directories: bool) -> spec_fn(CentralDirectory) -> bool {
    |e: CentralDirectory| e.is_directory == directories
}

/// `after` is `before` with `v` stored under the path whose bytes are `k`.
pub open spec fn inserted(before: ZipIndex, after: ZipIndex, k: Seq<u8>, v: CentralDirectory) -> bool {
    &&& after.wf()
    &&& after.lookup(k) == Some(v)
    &&& forall|q: Seq<u8>| q != k ==> #[trigger] after.lookup(q) == before.lookup(q)
}

/// `r` lists the paths and entries of `idx`, in index order.
pub open spec fn lists(idx: ZipIndex, r: Seq<(&String, &CentralDirectory)>) -> bool {
    &&& r.len() == idx.entries().len()
    &&& forall|i: int|
        0 <= i < r.len() ==> *(#[trigger] r[i]).1 == idx.entries()[i] && name_key(r[i].0@)
            == idx.0.keys()[i]
}

impl ZipIndex {
    pub open spec fn wf(&self) -> bool {
        self.0.wf()
    }

    /// The entries in the byte order of their paths.
    pub open spec fn entries(&self) -> Seq<CentralDirectory> {
        self.0.values_seq()
    }

    /// The entry under the path whose bytes are `k`, if any.
    pub open spec fn lookup(&self, k: Seq<u8>) -> Option<CentralDirectory> {
        self.0.lookup(k)
    }

    pub fn new(map: NameMap<CentralDirectory>) -> (r: ZipIndex)
        ensures
            r.0 == map,
    {
        ZipIndex(map)
    }

    /// The entries in index order that satisfy `keep`.
    fn select(&self, directories: bool) -> (r: Vec<&CentralDirectory>)
        ensures
            derefs(r@) == self.entries().filter(kind_filter(directories)),
    {
        let all = self.0.values();
        let ghost es = self.entries();
        let ghost keep = kind_filter(directories);
        let mut out: Vec<&CentralDirectory> = Vec::new();
        let mut i: usize = 0;
        reveal(Seq::filter);
        assert(es.subrange(0, 0).filter(keep) =~= Seq::<CentralDirectory>::empty());
        while i < all.len()
            invariant
                all@.len() == es.len(),
                forall|j: int| 0 <= j < all@.len() ==> *#[trigger] all@[j] == es[j],
                i <= all@.len(),
                keep == kind_filter(directories),
                derefs(out@) == es.subrange(0, i as int).filter(keep),
            decreases all@.len() - i,
        {
            let e = all[i];
            let ghost before = out@;
            assert(es.subrange(0, i + 1).drop_last() =~= es.subrange(0, i as int));
            assert(es.subrange(0, i + 1).last() == es[i as int]);
            assert(*e == es[i as int]);
            assert(keep(es[i as int]) == (es[i as int].is_directory == directories));
            reveal(Seq::filter);
            assert(es.subrange(0, i + 1).filter(keep) == if keep(es[i as int]) {
                es.subrange(0, i as int).filter(keep).push(es[i as int])
            } else {
                es.subrange(0, i as int).filter(keep)
            });
            if e.is_directory == directories {
                out.push(e);
                assert(derefs(out@) =~= derefs(before).push(*e));
            }
            assert(derefs(out@) == es.subrange(0, i + 1).filter(keep));
            i = i + 1;
        }
        assert(es.subrange(0, i as int) =~= es);
        out
    }

    /// The file entries, in index order.
    pub fn files(&self) -> (r: Vec<&CentralDirectory>)
        ensures
            derefs(r@) == self.entries().filter(|e: CentralDirectory| is_file_entry(e)),
    {
        let r = self.select(false);
        let ghost f1 = kind_filter(false);
        let ghost f2 = |e: CentralDirectory| is_file_entry(e);
        assert(f1 =~= f2);
        r
    }

    /// The directory entries, in index order.
    pub fn dirs(&self) -> (r: Vec<&CentralDirectory>)
        ensures
            derefs(r@) == self.entries().filter(|e: CentralDirectory| is_dir_entry(e)),
    {
        let r = self.select(true);
        let ghost f1 = kind_filter(true);
        let ghost f2 = |e: CentralDirectory| is_dir_entry(e);
        assert(f1 =~= f2);
        r
    }

    /// The entry under `path`, if any.
    pub fn get(&self, path: &str) -> (r: Option<&CentralDirectory>)
        requires
            self.wf(),
        ensures
            r matches Some(e) ==> self.lookup(name_key(path@)) == Some(*e),
            r is None ==> self.lookup(name_key(path@)) is None,
    {
        self.0.get(path)
    }

    /// Stores `info` under `path`, returning the entry it replaces: the later
    /// of two entries under one path is the one that stays.
    pub fn insert(&mut self, path: String, info: CentralDirectory) -> (r: Option<CentralDirectory>)
        requires
            old(self).wf(),
        ensures
            r == old(self).lookup(name_key(path@)),
            inserted(*old(self), *final(self), name_key(path@), info),
    {
        self.0.insert(path, info)
    }

    pub fn contains(&self, path: &str) -> (r: bool)
        requires
            self.wf(),
        ensures
            r == self.lookup(name_key(path@)) is Some,
    {
        self.0.contains(path)
    }

    pub fn len(&self) -> (r: usize)
        ensures
            r == self.entries().len(),
    {
        self.0.len()
    }

    pub fn is_empty(&self) -> (r: bool)
        ensures
            r == (self.entries().len() == 0),
    {
        self.0.is_empty()
    }

    /// The paths and their entries, in index order.
    pub fn iter(&self) -> (r: Vec<(&String, &CentralDirectory)>)
        ensures
            lists(*self, r@),
    {
        let ks = self.0.keys_in_order();
        let vs = self.0.values();
        let mut out: Vec<(&String, &CentralDirectory)> = Vec::new();
        let mut i: usize = 0;
        while i < vs.len()
            invariant
                ks@.len() == self.0.keys().len(),
                vs@.len() == self.entries().len(),
                ks@.len() == vs@.len(),
                forall|j: int| 0 <= j < vs@.len() ==> *#[trigger] vs@[j] == self.entries()[j],
                forall|j: int| 0 <= j < ks@.len() ==> name_key((#[trigger] ks@[j])@) == self.0.keys()[j],
                i <= vs@.len(),
                out@.len() == i,
                forall|j: int|
                    0 <= j < i ==> *(#[trigger] out@[j]).1 == self.entries()[j] && name_key(
                        out@[j].0@,
                    ) == self.0.keys()[j],
            decreases vs@.len() - i,
        {
            out.push((ks[i], vs[i]));
            i = i + 1;
        }
        out
    }

    /// The paths, in index order.
    pub fn keys(&self) -> (r: Vec<&String>)
        ensures
            r@.len() == self.0.keys().len(),
            forall|i: int| 0 <= i < r@.len() ==> name_key((#[trigger] r@[i])@) == self.0.keys()[i],
    {
        self.0.keys_in_order()
    }

    /// The entries, in index order.
    pub fn values(&self) -> (r: Vec<&CentralDirectory>)
        ensures
            r@.len() == self.entries().len(),
            forall|i: int| 0 <= i < r@.len() ==> *#[trigger] r@[i] == self.entries()[i],
    {
        self.0.values()
    }
}

/// What is known about a member, in the form callers want it.
pub struct ZipEntryInfo {
    pub name: String,
    pub is_dir: bool,
    pub is_file: bool,
    pub is_symlink: bool,
    pub is_compressed: bool,
    pub size: u64,
    pub compressed_size: u64,
    pub crc32: u32,
    pub compression_method: u16,
    pub last_modified: u32,
    pub last_accessed: u32,
    pub comment: Option<String>,
    pub offset: u64,
}

/// `info` describes `cd`. The kinds come from the MS-DOS attribute bits:
/// 0x10 a directory, 0x20 an archived file; bit 30 marks a symbolic link.
pub open spec fn describes(info: ZipEntryInfo, cd: CentralDirectory) -> bool {
    &&& info.name@ == cd.filename@
    &&& info.is_dir == (cd.external_file_attributes & 0x10 == 0x10)
    &&& info.is_file == (cd.external_file_attributes & 0x20 == 0x20)
    &&& info.is_symlink == (cd.external_file_attributes & 0x4000_0000 == 0x4000_0000)
    &&& info.is_compressed == (cd.compression != 0)
    &&& info.size == cd.uncompressed_size
    &&& info.compressed_size == cd.compressed_size
    &&& info.crc32 == cd.crc32
    &&& info.compression_method == cd.compression
    &&& info.last_modified == cd.last_mod_date
    &&& info.last_accessed == cd.last_mod_date
    &&& info.comment is None
    &&& info.offset == cd.local_header_rel_offset
}

impl ZipEntryInfo {
    pub fn from_central_dir(entry: &CentralDirectory) -> (r: ZipEntryInfo)
        ensures
            describes(r, *entry),
    {
        ZipEntryInfo {
            name: entry.filename.clone(),
            is_dir: entry.external_file_attributes & 0x10 == 0x10,
            is_file: entry.external_file_attributes & 0x20 == 0x20,
            is_symlink: entry.external_file_attributes & 0x4000_0000 == 0x4000_0000,
            is_compressed: entry.compression != 0,
            size: entry.uncompressed_size as u64,
            compressed_size: entry.compressed_size as u64,
            crc32: entry.crc32,
            compression_method: entry.compression,
            last_modified: entry.last_mod_date as u32,
            last_accessed: entry.last_mod_date as u32,
            comment: None,
            offset: entry.local_header_rel_offset as u64,
        }
    }
}

// ---------------------------------------------------------------------------
// Opening an archive
// ---------------------------------------------------------------------------

/// The offset of the first end record, scanning from the start.
pub open spec fn eocd_offset(s: Seq<u8>) -> Option<int> {
    first_sig_from(s, EOCD_SIG, 0)
}

/// The offset of the central directory that the end record at `e` declares.
pub open spec fn declared_cd_offset(s: Seq<u8>, e: int) -> int {
    u32_le(s, e + 16) as int
}

/// Why opening `s` fails, if it does: no end record, an end record cut
/// short, or the error that stops the walk of the central directory.
pub open spec fn open_failure(s: Seq<u8>) -> Option<ZipError> {
    match eocd_offset(s) {
        None => Some(ZipError::EndOfCentralDirectoryNotFound),
        Some(e) => if !eocd_fits(s, e) {
            Some(eof())
        } else {
            cd_walk(s, declared_cd_offset(s, e)).1
        },
    }
}

/// The central directory entries that opening `s` indexes.
pub open spec fn opened_entries(s: Seq<u8>) -> Seq<int> {
    cd_walk(s, declared_cd_offset(s, eocd_offset(s)->Some_0)).0
}

/// An error that reports `path` as absent from the index.
pub open spec fn is_not_found(e: ZipError, path: &str) -> bool {
    e is EntryNotFound && e->EntryNotFound_0@ == path@
}

/// An open archive: its bytes and the index built from its central directory.
pub struct ZipReader {
    reader: ByteCursor,
    index: ZipIndex,
    is_zip64: bool,
}

/// One step of extracting a whole archive.
pub enum ExtractStep<'a> {
    /// Create the directory of this entry, with any missing parents.
    CreateDir(&'a CentralDirectory),
    /// Write the file of this entry.
    WriteFile(&'a CentralDirectory),
}

/// The entry that a step acts on.
pub open spec fn step_entry(step: ExtractStep) -> CentralDirectory {
    match step {
        ExtractStep::CreateDir(e) => *e,
        ExtractStep::WriteFile(e) => *e,
    }
}

/// Extracts a member into a file whose directory and path the caller has
/// checked: checks the codec against the member's method first, then that the
/// destination directory exists, then that the target path is free, and only
/// then reads and expands the payload. Nothing is to be written on an error.
pub fn extract_file<C: CompressionCodec>(
    reader: &mut ByteCursor,
    cd: &CentralDirectory,
    destination_exists: bool,
    target_exists: bool,
    codec: &C,
) -> (r: Result<Vec<u8>, ZipError>)
    ensures
        final(reader).data@ == old(reader).data@,
        r == if cd.compression != codec.method_id() {
            Err(ZipError::MismatchedCompressionMethod(cd.compression, codec.method_id()))
        } else if !destination_exists {
            Err(ZipError::IOError(IoErrorKind::NotFound))
        } else if target_exists {
            Err(ZipError::IOError(IoErrorKind::AlreadyExists))
        } else {
            r
        },
        cd.compression == codec.method_id() && destination_exists && !target_exists ==> expands_to(
            r,
            payload_of(old(reader).data@, *cd),
            codec,
        ),
{
    let id = codec.int_id();
    if cd.compression != id {
        return Err(ZipError::MismatchedCompressionMethod(cd.compression, id));
    }
    if !destination_exists {
        return Err(ZipError::IOError(IoErrorKind::NotFound));
    }
    if target_exists {
        return Err(ZipError::IOError(IoErrorKind::AlreadyExists));
    }
    expand_payload(reader, cd, codec)
}

/// `r` is what expanding the payload `p` with `codec` gives.
pub open spec fn expands_to<C: CompressionCodec>(
    r: Result<Vec<u8>, ZipError>,
    p: Result<Seq<u8>, ZipError>,
    codec: &C,
) -> bool {
    match p {
        Err(e) => r == Err::<Vec<u8>, ZipError>(e),
        Ok(b) => match codec.expanded(b) {
            Some(x) => r is Ok && r->Ok_0@ == x,
            None => r is Err,
        },
    }
}

/// Reads the payload of `cd` and expands it with `codec`.
fn expand_payload<C: CompressionCodec>(reader: &mut ByteCursor, cd: &CentralDirectory, codec: &C) -> (r: Result<
    Vec<u8>,
    ZipError,
>)
    ensures
        final(reader).data@ == old(reader).data@,
        expands_to(r, payload_of(old(reader).data@, *cd), codec),
{
    let data = match dump_file(reader, cd) {
        Ok(d) => d,
        Err(e) => return Err(e),
    };
    let n = data.len();
    codec.expand((&data, n))
}

impl ZipReader {
    /// The bytes of the archive.
    pub closed spec fn bytes(&self) -> Seq<u8> {
        self.reader.data@
    }

    /// The index of the archive.
    pub closed spec fn index_view(&self) -> ZipIndex {
        self.index
    }

    /// The index is well formed, and the archive was read in its 32-bit form:
    /// zip64 records are recognised by signature but not decoded.
    pub closed spec fn wf(&self) -> bool {
        self.index.wf() && !self.is_zip64
    }

    /// Opens the archive held in `data`: finds the end record by scanning
    /// from the start, then indexes the central directory from the offset it
    /// declares.
    pub fn new(data: Vec<u8>) -> (r: Result<ZipReader, ZipError>)
        ensures
            match open_failure(data@) {
                Some(e) => r == Err::<ZipReader, ZipError>(e),
                None => r is Ok && r->Ok_0.wf() && r->Ok_0.bytes() == data@ && indexes(
                    r->Ok_0.index_view(),
                    data@,
                    opened_entries(data@),
                ),
            },
    {
        let ghost s = data@;
        let mut reader = ByteCursor::new(data);
        let eocd = match find_eocd(&mut reader) {
            Ok(e) => e,
            Err(e) => return Err(e),
        };
        proof {
            lemma_scan_result(s, EOCD_SIG, 0);
        }
        let index = match index_archive(
            &mut reader,
            Some(eocd.offset_of_start_of_central_directory as u64),
        ) {
            Ok(i) => i,
            Err(e) => return Err(e),
        };
        Ok(ZipReader { reader, index, is_zip64: false })
    }

    /// The index of the archive.
    pub fn index(&self) -> (r: &ZipIndex)
        requires
            self.wf(),
        ensures
            *r == self.index_view(),
            r.wf(),
    {
        &self.index
    }

    /// The paths and entries of the archive, in index order.
    pub fn list(&self) -> (r: Vec<(&String, &CentralDirectory)>)
        ensures
            lists(self.index_view(), r@),
    {
        self.index.iter()
    }

    /// Whether the archive was read in zip64 form.
    pub fn is_zip64(&self) -> (r: bool)
        requires
            self.wf(),
        ensures
            !r,
    {
        self.is_zip64
    }

    /// The payload of the member at `filename`, as stored.
    pub fn dump_file(&mut self, filename: &str) -> (r: Result<Vec<u8>, ZipError>)
        requires
            old(self).wf(),
        ensures
            final(self).wf(),
            final(self).bytes() == old(self).bytes(),
            final(self).index_view() == old(self).index_view(),
            match old(self).index_view().lookup(name_key(filename@)) {
                None => r is Err && is_not_found(r->Err_0, filename),
                Some(cd) => is_payload(r, payload_of(old(self).bytes(), cd)),
            },
    {
        let entry = match self.index.get(filename) {
            Some(e) => e,
            None => return Err(ZipError::EntryNotFound(filename.to_owned())),
        };
        dump_file(&mut self.reader, entry)
    }

    /// The payload of the member that `cd` describes, as stored.
    pub fn dump_file_from_cd(&mut self, cd: &CentralDirectory) -> (r: Result<Vec<u8>, ZipError>)
        requires
            old(self).wf(),
        ensures
            final(self).wf(),
            final(self).bytes() == old(self).bytes(),
            final(self).index_view() == old(self).index_view(),
            is_payload(r, payload_of(old(self).bytes(), *cd)),
    {
        dump_file(&mut self.reader, cd)
    }

    /// What is known about the member at `filename`.
    pub fn file_info(&self, filename: &str) -> (r: Result<ZipEntryInfo, ZipError>)
        requires
            self.wf(),
        ensures
            match self.index_view().lookup(name_key(filename@)) {
                None => r is Err && is_not_found(r->Err_0, filename),
                Some(cd) => r is Ok && describes(r->Ok_0, cd),
            },
    {
        match self.index.get(filename) {
            Some(e) => Ok(ZipEntryInfo::from_central_dir(e)),
            None => Err(ZipError::EntryNotFound(filename.to_owned())),
        }
    }

    /// The expanded content of the member at `filename`. Fails with
    /// `MismatchedCompressionMethod(declared, supplied)` before reading
    /// anything where the codec does not implement the member's method.
    pub fn extract_file<C: CompressionCodec>(&mut self, filename: &str, codec: &C) -> (r: Result<
        Vec<u8>,
        ZipError,
    >)
        requires
            old(self).wf(),
        ensures
            final(self).wf(),
            final(self).bytes() == old(self).bytes(),
            final(self).index_view() == old(self).index_view(),
            match old(self).index_view().lookup(name_key(filename@)) {
                None => r is Err && is_not_found(r->Err_0, filename),
                Some(cd) => if cd.compression != codec.method_id() {
                    r == Err::<Vec<u8>, ZipError>(
                        ZipError::MismatchedCompressionMethod(cd.compression, codec.method_id()),
                    )
                } else {
                    expands_to(r, payload_of(old(self).bytes(), cd), codec)
                },
            },
    {
        let entry = match self.index.get(filename) {
            Some(e) => e,
            None => return Err(ZipError::EntryNotFound(filename.to_owned())),
        };
        let id = codec.int_id();
        if entry.compression != id {
            return Err(ZipError::MismatchedCompressionMethod(entry.compression, id));
        }
        expand_payload(&mut self.reader, entry, codec)
    }

    /// Extracts the member that `cd` describes into a file, as `extract_file`
    /// does, given what the caller found of the destination.
    pub fn extract_to_checked<C: CompressionCodec>(
        &mut self,
        cd: &CentralDirectory,
        destination_exists: bool,
        target_exists: bool,
        codec: &C,
    ) -> (r: Result<Vec<u8>, ZipError>)
        requires
            old(self).wf(),
        ensures
            final(self).wf(),
            final(self).bytes() == old(self).bytes(),
            final(self).index_view() == old(self).index_view(),
            r == if cd.compression != codec.method_id() {
                Err(ZipError::MismatchedCompressionMethod(cd.compression, codec.method_id()))
            } else if !destination_exists {
                Err(ZipError::IOError(IoErrorKind::NotFound))
            } else if target_exists {
                Err(ZipError::IOError(IoErrorKind::AlreadyExists))
            } else {
                r
            },
            cd.compression == codec.method_id() && destination_exists && !target_exists
                ==> expands_to(r, payload_of(old(self).bytes(), *cd), codec),
    {
        extract_file(&mut self.reader, cd, destination_exists, target_exists, codec)
    }

    /// The steps that extract the whole archive: every directory entry is
    /// created, in index order, before any file entry is written, in index
    /// order.
    pub fn extract_all_files(&self) -> (r: Vec<ExtractStep>)
        ensures
            r@.map_values(|st: ExtractStep| step_entry(st)) == self.index_view().entries().filter(
                |e: CentralDirectory| is_dir_entry(e),
            ) + self.index_view().entries().filter(|e: CentralDirectory| is_file_entry(e)),
            forall|i: int|
                0 <= i < r@.len() ==> ((#[trigger] r@[i]) is CreateDir <==> i
                    < self.index_view().entries().filter(|e: CentralDirectory| is_dir_entry(e)).len()),
            forall|i: int, j: int|
                0 <= i < j < r@.len() ==> !((#[trigger] r@[i]) is WriteFile && (#[trigger] r@[j]) is CreateDir),
    {
        let dirs = self.index.dirs();
        let files = self.index.files();
        let mut steps: Vec<ExtractStep> = Vec::new();
        let mut i: usize = 0;
        while i < dirs.len()
            invariant
                i <= dirs@.len(),
                steps@.len() == i,
                forall|j: int| 0 <= j < i ==> #[trigger] steps@[j] == ExtractStep::CreateDir(dirs@[j]),
            decreases dirs@.len() - i,
        {
            steps.push(ExtractStep::CreateDir(dirs[i]));
            i = i + 1;
        }
        let mut k: usize = 0;
        while k < files.len()
            invariant
                i == dirs@.len(),
                k <= files@.len(),
                steps@.len() == i + k,
                forall|j: int| 0 <= j < i ==> #[trigger] steps@[j] == ExtractStep::CreateDir(dirs@[j]),
                forall|j: int|
                    0 <= j < k ==> #[trigger] steps@[i + j] == ExtractStep::WriteFile(files@[j]),
            decreases files@.len() - k,
        {
            steps.push(ExtractStep::WriteFile(files[k]));
            proof {
                assert(steps@[i + k as int] == ExtractStep::WriteFile(files@[k as int]));
            }
            k = k + 1;
        }
        proof {
            let m = steps@.map_values(|st: ExtractStep| step_entry(st));
            assert(m =~= derefs(dirs@) + derefs(files@)) by {
                assert forall|j: int| 0 <= j < m.len() implies m[j] == (derefs(dirs@) + derefs(
                    files@,
                ))[j] by {
                    if j >= i {
                        assert(steps@[i + (j - i)] == ExtractStep::WriteFile(files@[j - i]));
                    }
                }
            }
            assert forall|j: int| 0 <= j < steps@.len() implies ((#[trigger] steps@[j]) is CreateDir
                <==> j < dirs@.len()) by {
                if j >= i {
                    assert(steps@[i + (j - i)] == ExtractStep::WriteFile(files@[j - i]));
                }
            }
        }
        steps
    }
}

// ---------------------------------------------------------------------------
// Laws
// ---------------------------------------------------------------------------

/// Where no end record signature occurs anywhere in `s`, opening fails with
/// `EndOfCentralDirectoryNotFound`.
pub proof fn lemma_open_without_end_record(s: Seq<u8>)
    requires
        forall|j: int| !sig_at(s, j, EOCD_SIG),
    ensures
        open_failure(s) == Some(ZipError::EndOfCentralDirectoryNotFound),
{
    lemma_scan_result(s, EOCD_SIG, 0);
}

/// The offset just past the entries at `offs`, which begin at `start`.
pub open spec fn entries_end(s: Seq<u8>, start: int, offs: Seq<int>) -> int {
    if offs.len() == 0 {
        start
    } else {
        offs.last() + cd_record_len(s, offs.last())
    }
}

/// `s` is a well-formed archive whose central directory entries stand at
/// `offs`: its first end record lies whole in the bytes and declares as many
/// entries as `offs` holds; the entries decode and lie back to back from the
/// offset that the end record declares; their names are distinct; and no
/// central directory signature follows the last of them.
pub open spec fn well_formed(s: Seq<u8>, offs: Seq<int>) -> bool {
    &&& eocd_offset(s) is Some
    &&& eocd_fits(s, eocd_offset(s)->Some_0)
    &&& offs.len() == u16_le(s, eocd_offset(s)->Some_0 + 10)
    &&& offs.len() > 0 ==> offs[0] == declared_cd_offset(s, eocd_offset(s)->Some_0)
    &&& forall|i: int|
        0 <= i < offs.len() ==> sig_at(s, #[trigger] offs[i], CD_SIG) && cd_failure(s, offs[i]) is None
    &&& forall|i: int|
        0 <= i < offs.len() - 1 ==> #[trigger] offs[i + 1] == offs[i] + cd_record_len(s, offs[i])
    &&& forall|i: int, j: int|
        0 <= i < offs.len() && 0 <= j < offs.len() && i != j ==> cd_name(s, #[trigger] offs[i])
            != cd_name(s, #[trigger] offs[j])
    &&& forall|j: int|
        entries_end(s, declared_cd_offset(s, eocd_offset(s)->Some_0), offs) <= j ==> !sig_at(
            s,
            j,
            CD_SIG,
        )
}

/// The walk from the entry at `i` of a well-formed archive finds the entries
/// from `i` on and ends cleanly.
proof fn lemma_walk_suffix(s: Seq<u8>, offs: Seq<int>, i: int)
    requires
        well_formed(s, offs),
        0 <= i < offs.len(),
    ensures
        cd_walk(s, offs[i]) == (offs.subrange(i, offs.len() as int), None::<ZipError>),
    decreases offs.len() - i,
{
    let next = offs[i] + cd_record_len(s, offs[i]);
    assert(sig_at(s, offs[i], CD_SIG) && cd_failure(s, offs[i]) is None);
    if i + 1 < offs.len() {
        assert(offs[i + 1] == next);
        lemma_walk_suffix(s, offs, i + 1);
        assert(offs.subrange(i, offs.len() as int) =~= seq![offs[i]] + offs.subrange(
            i + 1,
            offs.len() as int,
        ));
    } else {
        lemma_scan_result(s, CD_SIG, next);
        lemma_walk_from_signature(s, next);
        assert(offs.subrange(i, offs.len() as int) =~= seq![offs[i]]);
        assert(seq![offs[i]] + Seq::<int>::empty() =~= seq![offs[i]]);
    }
}

/// Opening a well-formed archive walks its central directory from the offset
/// that the end record declares and finds exactly the entries there: as many
/// as the end record's total-records field declares, each under its own name.
pub proof fn lemma_well_formed_walk_count(s: Seq<u8>, offs: Seq<int>)
    requires
        well_formed(s, offs),
    ensures
        open_failure(s) is None,
        opened_entries(s) == offs,
        opened_entries(s).len() == u16_le(s, eocd_offset(s)->Some_0 + 10),
{
    let start = declared_cd_offset(s, eocd_offset(s)->Some_0);
    if offs.len() > 0 {
        lemma_walk_suffix(s, offs, 0);
        assert(offs.subrange(0, offs.len() as int) =~= offs);
    } else {
        lemma_scan_result(s, CD_SIG, start);
        lemma_walk_from_signature(s, start);
        assert(offs =~= Seq::<int>::empty());
    }
}

/// Two listings of one index hold the same paths and the same entries, in the
/// same order. Since reading a member leaves the index as it was, listing an
/// open reader again gives what it gave before.
pub proof fn lemma_listing_is_stable(
    idx: ZipIndex,
    a: Seq<(&String, &CentralDirectory)>,
    b: Seq<(&String, &CentralDirectory)>,
)
    requires
        lists(idx, a),
        lists(idx, b),
    ensures
        a.len() == b.len(),
        forall|i: int| 0 <= i < a.len() ==> (#[trigger] a[i]).0@ == b[i].0@ && *a[i].1 == *b[i].1,
{
    assert forall|i: int| 0 <= i < a.len() implies (#[trigger] a[i]).0@ == b[i].0@ && *a[i].1
        == *b[i].1 by {
        vstd::utf8::encode_utf8_decode_utf8(a[i].0@);
        vstd::utf8::encode_utf8_decode_utf8(b[i].0@);
    }
}

/// Of two entries inserted under one path, the later one is the one found
/// there, and every other path is found as before.
pub proof fn lemma_later_entry_wins(
    i0: ZipIndex,
    i1: ZipIndex,
    i2: ZipIndex,
    k: Seq<u8>,
    first: CentralDirectory,
    second: CentralDirectory,
)
    requires
        inserted(i0, i1, k, first),
        inserted(i1, i2, k, second),
    ensures
        i2.lookup(k) == Some(second),
        forall|q: Seq<u8>| q != k ==> #[trigger] i2.lookup(q) == i0.lookup(q),
{
    assert forall|q: Seq<u8>| q != k implies #[trigger] i2.lookup(q) == i0.lookup(q) by {
        assert(i2.lookup(q) == i1.lookup(q));
    }
}

} // verus!
