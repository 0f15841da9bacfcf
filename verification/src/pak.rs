//! The archive itself: its errors, its records and the parsed state.

use crate::format::{archive, contiguous, entry_at, table, xor_key_of, xored};
use crate::format::{lemma_archive_contiguous, lemma_magic_plain};
use crate::format::{ArchiveModel, RecordModel};
use crate::iohelper::IoHelper;
use vstd::prelude::*;
use vstd::slice::{slice_subrange, slice_to_vec};

verus! {

/// Ticks of 100 nanoseconds between the epoch of the archive's time stamps
/// and the Unix epoch.
pub const EPOCH_AS_FILETIME: u64 = 116444736000000000;

/// The first four bytes of an archive, read as a little-endian integer.
pub const PAK_MAGIC: u32 = 0xBAC04AC0;

/// The bit of a flags byte that marks the end of the record table.
pub const FILEFLAGS_END: u8 = 0x80;

/// The byte that an obscured archive is XORed with.
pub const XOR_KEY: u8 = 0xF7;

/// `XOR_KEY` repeated over the four bytes of the magic value.
pub const XOR_MAGIC_MASK: u32 = 0xF7F7F7F7;

/// Why reading an archive failed.
#[derive(Debug, Clone, Copy, PartialEq, Eq, Structural)]
pub enum PakError {
    /// The magic value matches neither plainly nor under the XOR key.
    UnrecognizedFormat,
    /// A read asked for more bytes than the buffer has left.
    TruncatedInput,
    /// The bytes of a name are not valid UTF-8.
    InvalidEncoding,
    /// A record's data does not lie inside the payload.
    OutOfBounds,
}

/// The time stamp of an archive converted to microseconds since the Unix
/// epoch. Ticks below a microsecond are cut off.
pub open spec fn unix_micros(ft: int) -> int {
    (ft - EPOCH_AS_FILETIME) / 10
}

/// Microseconds since the Unix epoch converted to the time stamp of an
/// archive.
pub open spec fn filetime(dt: int) -> int {
    dt * 10 + EPOCH_AS_FILETIME
}

/// The modification time that a record's time stamp stands for, in
/// microseconds since the Unix epoch; `None` for a stamp before that epoch.
pub open spec fn modified_of(datetime: u64) -> Option<u64> {
    if datetime >= EPOCH_AS_FILETIME {
        Some(unix_micros(datetime as int) as u64)
    } else {
        None
    }
}

/// A time in microseconds survives the way to a time stamp and back.
pub proof fn lemma_filetime_round_trip(dt: int)
    ensures
        unix_micros(filetime(dt)) == dt,
{
}

/// The way from a time stamp to microseconds and back loses less than one
/// microsecond, and never adds anything.
pub proof fn lemma_unix_micros_truncates(ft: int)
    ensures
        filetime(unix_micros(ft)) <= ft < filetime(unix_micros(ft)) + 10,
{
}

/// One file of an archive.
#[derive(Debug, Clone, PartialEq, Eq)]
pub struct PakRecord {
    /// The relative path of the file, with the separators as encoded.
    pub fname: String,
    /// Where the file's data starts, counted from the start of the data
    /// region: the sum of the sizes of the records before this one.
    pub start_pos: u64,
    /// The length of the file's data.
    pub size: u32,
    /// The time stamp as encoded: ticks of 100 nanoseconds.
    pub datetime: u64,
}

impl View for PakRecord {
    type V = RecordModel;

    open spec fn view(&self) -> RecordModel {
        RecordModel {
            fname: self.fname@,
            start_pos: self.start_pos as nat,
            size: self.size,
            datetime: self.datetime,
        }
    }
}

/// The models of a sequence of records.
pub open spec fn models(records: Seq<PakRecord>) -> Seq<RecordModel> {
    records.map_values(|r: PakRecord| r@)
}

/// `rest` with the records `done` put before it.
spec fn preceded_by(
    done: Seq<RecordModel>,
    rest: Result<(Seq<RecordModel>, int), PakError>,
) -> Result<(Seq<RecordModel>, int), PakError> {
    match rest {
        Ok((more, end)) => Ok((done + more, end)),
        Err(e) => Err(e),
    }
}

/// XORs every byte of `raw` with `key`.
pub fn xor_bytes(raw: &Vec<u8>, key: u8) -> (out: Vec<u8>)
    ensures
        out@ == xored(raw@, key),
{
    let mut out: Vec<u8> = Vec::with_capacity(raw.len());
    let mut i: usize = 0;
    while i < raw.len()
        invariant
            i <= raw.len(),
            out@ == xored(raw@.take(i as int), key),
        decreases raw.len() - i,
    {
        out.push(raw[i] ^ key);
        i = i + 1;
        assert(out@ =~= xored(raw@.take(i as int), key));
    }
    assert(raw@.take(i as int) =~= raw@);
    out
}

/// Tells from the magic value of a file which XOR key it was obscured with:
/// 0 for a plain archive, `None` for a file that is no archive.
pub fn detect_xor_key(magic: u32) -> (r: Option<u8>)
    ensures
        r == xor_key_of(magic),
{
    if magic == PAK_MAGIC {
        Some(0)
    } else if magic ^ XOR_MAGIC_MASK == PAK_MAGIC {
        Some(XOR_KEY)
    } else {
        None
    }
}

/// Reads the fields of one table entry behind its flags byte.
fn read_entry(r: &mut IoHelper) -> (res: Result<(String, u32, u64), PakError>)
    ensures
        final(r).data() == old(r).data(),
        match entry_at(old(r).data(), old(r).offset() as int) {
            Ok((fname, size, datetime, next)) => res matches Ok(got) && got.0@ == fname && got.1
                == size && got.2 == datetime && final(r).offset() == next,
            Err(e) => res matches Err(got) && got == e && final(r).offset() == old(r).offset(),
        },
{
    let start: u64 = r.tell();
    let fname: String = r.read_str()?;
    let size: u32 = match r.read_u32() {
        Ok(v) => v,
        Err(e) => {
            r.seek(start);
            return Err(e);
        },
    };
    let datetime: u64 = match r.read_u64() {
        Ok(v) => v,
        Err(e) => {
            r.seek(start);
            return Err(e);
        },
    };
    Ok((fname, size, datetime))
}

/// Reads the record table at the cursor, up to and including the flags byte
/// that ends it. Each record starts where the one before it ends.
///
/// Fails with `TruncatedInput` where the buffer ends inside the table, with
/// `InvalidEncoding` where a name is no UTF-8, and with `OutOfBounds` where
/// a record would start beyond what 64 bits can count. On failure the
/// cursor is back where it was.
pub fn read_records(r: &mut IoHelper) -> (res: Result<Vec<PakRecord>, PakError>)
    ensures
        final(r).data() == old(r).data(),
        match table(old(r).data(), old(r).offset() as int, 0) {
            Ok((records, end)) => res matches Ok(got) && models(got@) == records && final(
                r).offset() == end,
            Err(e) => res matches Err(got) && got == e && final(r).offset() == old(r).offset(),
        },
{
    let start: u64 = r.tell();
    let mut records: Vec<PakRecord> = Vec::new();
    let mut next_start: Option<u64> = Some(0);
    let ghost mut total: nat = 0;
    let ghost data = r.data();
    let ghost whole = table(data, start as int, 0);
    assert(forall|more: Seq<RecordModel>| models(records@) + more =~= more);
    loop
        invariant
            data == old(r).data(),
            start == old(r).offset(),
            whole == table(data, start as int, 0),
            r.data() == data,
            next_start == (if total <= u64::MAX {
                Some(total as u64)
            } else {
                None
            }),
            whole == preceded_by(models(records@), table(data, r.offset() as int, total)),
        decreases data.len() - r.offset(),
    {
        let flags: u8 = match r.read_u8() {
            Ok(v) => v,
            Err(e) => {
                r.seek(start);
                return Err(e);
            },
        };
        if flags & FILEFLAGS_END != 0 {
            assert(models(records@) + Seq::<RecordModel>::empty() =~= models(records@));
            return Ok(records);
        }
        let (fname, size, datetime) = match read_entry(r) {
            Ok(v) => v,
            Err(e) => {
                r.seek(start);
                return Err(e);
            },
        };
        let start_pos: u64 = match next_start {
            Some(p) => p,
            None => {
                r.seek(start);
                return Err(PakError::OutOfBounds);
            },
        };
        let record = PakRecord { fname, start_pos, size, datetime };
        proof {
            let done = models(records@);
            let rest = table(data, r.offset() as int, total + size as nat);
            assert(models(records@.push(record)) =~= done.push(record@));
            match rest {
                Ok((more, end)) => {
                    assert(done + (seq![record@] + more) =~= done.push(record@) + more);
                },
                Err(_) => {},
            }
            total = total + size as nat;
        }
        records.push(record);
        next_start = start_pos.checked_add(size as u64);
    }
}

/// A file taken out of an archive, ready to be written.
#[derive(Debug, Clone, PartialEq, Eq)]
pub struct ExtractedFile {
    /// The relative path of the file, with the separators as encoded.
    pub name: String,
    /// The contents of the file.
    pub data: Vec<u8>,
    /// The modification time in microseconds since the Unix epoch; `None`
    /// where the record's time stamp lies before that epoch.
    pub modified: Option<u64>,
}

/// An extracted file as a mathematical value.
pub struct ExtractedModel {
    /// The relative path of the file.
    pub name: Seq<char>,
    /// The contents of the file.
    pub data: Seq<u8>,
    /// The modification time in microseconds since the Unix epoch.
    pub modified: Option<u64>,
}

impl View for ExtractedFile {
    type V = ExtractedModel;

    open spec fn view(&self) -> ExtractedModel {
        ExtractedModel { name: self.name@, data: self.data@, modified: self.modified }
    }
}

/// What extracting `record` from `archive` gives: its name, its bytes and
/// its modification time. `None` where the bytes do not lie inside the
/// payload.
pub open spec fn extracted(archive: ArchiveModel, record: RecordModel) -> Option<ExtractedModel> {
    match archive.slice_of(record) {
        Some(data) => Some(
            ExtractedModel { name: record.fname, data, modified: modified_of(record.datetime) },
        ),
        None => None,
    }
}

/// The state of a parsed archive: the payload with the XOR layer removed,
/// the records of its table, and where the data region starts.
pub struct PakFile {
    /// Whether the format was recognised.
    pub is_pak: bool,
    /// The byte that the file was XORed with; 0 for none.
    pub xor: u8,
    /// The version field of the header.
    pub version: u32,
    /// The records in the order of the table.
    pub records: Vec<PakRecord>,
    /// The payload: the whole file with the XOR layer removed.
    pub pak_data: Vec<u8>,
    /// The index in the payload of the first byte behind the record table,
    /// where the data region starts.
    pub data_pos: u64,
}

impl View for PakFile {
    type V = ArchiveModel;

    open spec fn view(&self) -> ArchiveModel {
        ArchiveModel {
            is_pak: self.is_pak,
            xor: self.xor,
            version: self.version,
            records: models(self.records@),
            data: self.pak_data@,
            data_pos: self.data_pos as nat,
        }
    }
}

impl Default for PakFile {
    fn default() -> (r: PakFile)
        ensures
            r@ == ArchiveModel::empty(),
    {
        let r = PakFile {
            is_pak: false,
            xor: 0,
            version: 0,
            records: Vec::new(),
            pak_data: Vec::new(),
            data_pos: 0,
        };
        assert(models(r.records@) =~= Seq::empty());
        r
    }
}

impl PakFile {
    /// An archive that holds nothing yet.
    pub fn new() -> (r: PakFile)
        ensures
            r@ == ArchiveModel::empty(),
    {
        PakFile::default()
    }

    /// Parses the bytes of a whole file and replaces the state by what they
    /// hold: the payload with the XOR layer removed, the version, the
    /// records, and where the data region starts.
    ///
    /// Fails with `UnrecognizedFormat` where the magic value matches neither
    /// plainly nor under the XOR key, and otherwise as `read_records` does;
    /// a file that ends inside its header is `TruncatedInput`. On failure
    /// the state stays as it was.
    pub fn parse(&mut self, raw: &Vec<u8>) -> (res: Result<(), PakError>)
        ensures
            match archive(raw@) {
                Ok(model) => res is Ok && final(self)@ == model && contiguous(model.records),
                Err(e) => res == Err::<(), PakError>(e) && *final(self) == *old(self),
            },
    {
        let mut r = IoHelper::new(raw);
        let magic: u32 = r.read_u32()?;
        let key: u8 = match detect_xor_key(magic) {
            Some(key) => key,
            None => {
                return Err(PakError::UnrecognizedFormat);
            },
        };
        let data: Vec<u8> = xor_bytes(raw, key);
        let mut r = IoHelper::new(&data);
        let magic: u32 = r.read_u32()?;
        proof {
            lemma_magic_plain(raw@, key);
            lemma_archive_contiguous(raw@);
        }
        // With the XOR layer removed the magic value always reads plainly.
        assert(magic == PAK_MAGIC);
        let version: u32 = r.read_u32()?;
        let records: Vec<PakRecord> = read_records(&mut r)?;
        let data_pos: u64 = r.tell();
        self.is_pak = true;
        self.xor = key;
        self.version = version;
        self.records = records;
        self.pak_data = data;
        self.data_pos = data_pos;
        Ok(())
    }

    /// Converts a time stamp of an archive to microseconds since the Unix
    /// epoch; ticks below a microsecond are cut off. The stamp must not lie
    /// before the Unix epoch.
    pub fn filetime_to_datetime(ft: u64) -> (dt: u64)
        requires
            ft >= EPOCH_AS_FILETIME,
        ensures
            dt == unix_micros(ft as int),
    {
        (ft - EPOCH_AS_FILETIME) / 10
    }

    /// Converts microseconds since the Unix epoch to a time stamp of an
    /// archive. The stamp must fit in 64 bits.
    pub fn datetime_to_filetime(dt: u64) -> (ft: u64)
        requires
            filetime(dt as int) <= u64::MAX,
        ensures
            ft == filetime(dt as int),
    {
        dt * 10 + EPOCH_AS_FILETIME
    }

    /// Takes the file of `record` out of the payload: `size` bytes that
    /// start `start_pos` bytes into the data region. Fails with
    /// `OutOfBounds` where that range does not lie inside the payload, also
    /// for a record of no bytes.
    pub fn extract(&self, record: &PakRecord) -> (res: Result<ExtractedFile, PakError>)
        ensures
            match extracted(self@, record@) {
                Some(file) => res matches Ok(got) && got@ == file,
                None => res matches Err(e) && e == PakError::OutOfBounds,
            },
    {
        let len: u64 = self.pak_data.len() as u64;
        let from: u64 = match self.data_pos.checked_add(record.start_pos) {
            Some(from) => from,
            None => {
                return Err(PakError::OutOfBounds);
            },
        };
        let to: u64 = match from.checked_add(record.size as u64) {
            Some(to) => to,
            None => {
                return Err(PakError::OutOfBounds);
            },
        };
        if to > len {
            return Err(PakError::OutOfBounds);
        }
        let data: Vec<u8> = slice_to_vec(
            slice_subrange(self.pak_data.as_slice(), from as usize, to as usize),
        );
        let modified: Option<u64> = if record.datetime >= EPOCH_AS_FILETIME {
            Some(PakFile::filetime_to_datetime(record.datetime))
        } else {
            None
        };
        Ok(ExtractedFile { name: record.fname.clone(), data, modified })
    }

    /// Takes the files out of the payload in the order of their records, up
    /// to the first whose data does not lie inside the payload. Returns the
    /// files before that record, and the failure if there was one.
    pub fn dump_files(&self) -> (out: (Vec<ExtractedFile>, Option<PakError>))
        ensures
            out.0.len() <= self.records.len(),
            forall|i: int|
                0 <= i < out.0.len() ==> extracted(self@, self.records[i]@) == Some(
                    (#[trigger] out.0[i])@,
                ),
            out.0.len() == self.records.len() ==> out.1 is None,
            out.0.len() < self.records.len() ==> out.1 == Some(PakError::OutOfBounds) && extracted(
                self@,
                self.records[out.0.len() as int]@,
            ) is None,
    {
        let mut files: Vec<ExtractedFile> = Vec::new();
        let mut i: usize = 0;
        while i < self.records.len()
            invariant
                i == files.len(),
                i <= self.records.len(),
                forall|k: int|
                    0 <= k < files.len() ==> extracted(self@, self.records[k]@) == Some(
                        (#[trigger] files[k])@,
                    ),
            decreases self.records.len() - i,
        {
            match self.extract(&self.records[i]) {
                Ok(file) => {
                    files.push(file);
                },
                Err(e) => {
                    return (files, Some(e));
                },
            }
            i = i + 1;
        }
        (files, None)
    }

    /// Whether the version is the one that this reader was written for.
    /// Other versions are parsed all the same.
    pub fn version_is_expected(&self) -> (r: bool)
        ensures
            r == (self.version == 0),
    {
        self.version == 0
    }
}

} // verus!
