//! The layout of an archive, stated over byte sequences.
//!
//! An archive starts with a 32-bit magic value and a 32-bit version, both
//! little-endian. The record table follows: each entry is a flags byte, a
//! length-prefixed name, a 32-bit size and a 64-bit time stamp; a flags byte
//! with its top bit set ends the table. The files' contents follow the table
//! back to back, in the order of their records.

use crate::bytes::{le_u32, le_u64, prefixed_text};
use crate::pak::{PakError, FILEFLAGS_END, PAK_MAGIC, XOR_KEY, XOR_MAGIC_MASK};
use vstd::prelude::*;

verus! {

/// A file record as a mathematical value.
pub struct RecordModel {
    /// The relative path of the file.
    pub fname: Seq<char>,
    /// Where the file's data starts, counted from the start of the data region.
    pub start_pos: nat,
    /// The length of the file's data.
    pub size: u32,
    /// The time stamp as encoded: ticks of 100 nanoseconds.
    pub datetime: u64,
}

/// A parsed archive as a mathematical value.
pub struct ArchiveModel {
    /// Whether the format was recognised.
    pub is_pak: bool,
    /// The byte that the file was XORed with; 0 for none.
    pub xor: u8,
    /// The version field of the header.
    pub version: u32,
    /// The records in the order of the table.
    pub records: Seq<RecordModel>,
    /// The whole file with the XOR layer removed.
    pub data: Seq<u8>,
    /// The index in `data` of the first byte behind the table.
    pub data_pos: nat,
}

/// Every byte of `s` XORed with `key`.
pub open spec fn xored(s: Seq<u8>, key: u8) -> Seq<u8> {
    Seq::new(s.len(), |i: int| s[i] ^ key)
}

/// The XOR key that a file starting with `magic` was obscured with, if the
/// magic value is recognised at all.
pub open spec fn xor_key_of(magic: u32) -> Option<u8> {
    if magic == PAK_MAGIC {
        Some(0u8)
    } else if magic ^ XOR_MAGIC_MASK == PAK_MAGIC {
        Some(XOR_KEY)
    } else {
        None
    }
}

/// Whether a flags byte ends the record table.
pub open spec fn ends_table(flags: u8) -> bool {
    flags & FILEFLAGS_END != 0
}

/// The fields of the table entry whose name starts at index `at` (the flags
/// byte lies before it): name, size, time stamp, and the index behind the
/// entry.
pub open spec fn entry_at(data: Seq<u8>, at: int) -> Result<(Seq<char>, u32, u64, int), PakError> {
    match prefixed_text(data, at) {
        Err(e) => Err(e),
        Ok((fname, p)) => if p + 12 > data.len() {
            Err(PakError::TruncatedInput)
        } else {
            Ok((fname, le_u32(data, p), le_u64(data, p + 4), p + 12))
        },
    }
}

/// The record table that starts at index `at`, where `offset` is the sum of
/// the sizes of the records before it: the records, and the index behind the
/// terminating flags byte. A record whose start no longer fits in 64 bits
/// cannot lie in any payload and is refused.
pub open spec fn table(data: Seq<u8>, at: int, offset: nat) -> Result<
    (Seq<RecordModel>, int),
    PakError,
>
    decreases data.len() - at,
{
    if at < 0 || at >= data.len() {
        Err(PakError::TruncatedInput)
    } else if ends_table(data[at]) {
        Ok((Seq::empty(), at + 1))
    } else {
        match entry_at(data, at + 1) {
            Err(e) => Err(e),
            Ok((fname, size, datetime, next)) => if offset > u64::MAX {
                Err(PakError::OutOfBounds)
            } else {
                let first = RecordModel { fname, start_pos: offset, size, datetime };
                match table(data, next, offset + size as nat) {
                    Err(e) => Err(e),
                    Ok((rest, end)) => Ok((seq![first] + rest, end)),
                }
            },
        }
    }
}

/// What a whole file parses to.
pub open spec fn archive(raw: Seq<u8>) -> Result<ArchiveModel, PakError> {
    if raw.len() < 4 {
        Err(PakError::TruncatedInput)
    } else {
        match xor_key_of(le_u32(raw, 0)) {
            None => Err(PakError::UnrecognizedFormat),
            Some(key) => {
                let data = xored(raw, key);
                if data.len() < 8 {
                    Err(PakError::TruncatedInput)
                } else {
                    match table(data, 8, 0) {
                        Err(e) => Err(e),
                        Ok((records, end)) => Ok(
                            ArchiveModel {
                                is_pak: true,
                                xor: key,
                                version: le_u32(data, 4),
                                records,
                                data,
                                data_pos: end as nat,
                            },
                        ),
                    }
                }
            },
        }
    }
}

impl ArchiveModel {
    /// The archive that holds nothing.
    pub open spec fn empty() -> ArchiveModel {
        ArchiveModel {
            is_pak: false,
            xor: 0,
            version: 0,
            records: Seq::empty(),
            data: Seq::empty(),
            data_pos: 0,
        }
    }

    /// The data of `record`: `size` bytes of the payload, `start_pos` bytes
    /// into the data region. `None` where they do not lie inside the payload.
    pub open spec fn slice_of(self, record: RecordModel) -> Option<Seq<u8>> {
        let from = (self.data_pos + record.start_pos) as int;
        let to = from + record.size as int;
        if to <= self.data.len() {
            Some(self.data.subrange(from, to))
        } else {
            None
        }
    }
}

/// The sum of the sizes of the first `n` records.
pub open spec fn size_sum(records: Seq<RecordModel>, n: int) -> nat
    decreases n,
{
    if n <= 0 {
        0
    } else {
        size_sum(records, n - 1) + records[n - 1].size as nat
    }
}

/// Whether every record starts where the records before it end.
pub open spec fn contiguous(records: Seq<RecordModel>) -> bool {
    forall|i: int|
        0 <= i < records.len() ==> (#[trigger] records[i]).start_pos == size_sum(records, i)
}

/// XOR with one key twice gives the bytes back.
pub proof fn lemma_xored_involution(s: Seq<u8>, key: u8)
    ensures
        xored(xored(s, key), key) == s,
{
    assert forall|i: int| 0 <= i < s.len() implies xored(xored(s, key), key)[i] == s[i] by {
        let b = s[i];
        assert((b ^ key) ^ key == b) by (bit_vector);
    }
    assert(xored(xored(s, key), key) =~= s);
}

/// XOR with the key 0 changes nothing.
pub proof fn lemma_xored_zero(s: Seq<u8>)
    ensures
        xored(s, 0) == s,
{
    assert forall|i: int| 0 <= i < s.len() implies xored(s, 0)[i] == s[i] by {
        let b = s[i];
        assert(b ^ 0 == b) by (bit_vector);
    }
    assert(xored(s, 0) =~= s);
}

/// XOR of every byte with `XOR_KEY` XORs each little-endian 32-bit value
/// with `XOR_MAGIC_MASK`.
pub proof fn lemma_le_u32_xored(s: Seq<u8>, at: int)
    requires
        0 <= at,
        at + 4 <= s.len(),
    ensures
        le_u32(xored(s, XOR_KEY), at) == le_u32(s, at) ^ XOR_MAGIC_MASK,
{
    let b0 = s[at];
    let b1 = s[at + 1];
    let b2 = s[at + 2];
    let b3 = s[at + 3];
    assert(((b0 ^ 0xF7u8) as u64 + (b1 ^ 0xF7u8) as u64 * 0x100 + (b2 ^ 0xF7u8) as u64 * 0x1_0000
        + (b3 ^ 0xF7u8) as u64 * 0x100_0000) as u32 == ((b0 as u64 + b1 as u64 * 0x100 + b2 as u64
        * 0x1_0000 + b3 as u64 * 0x100_0000) as u32) ^ 0xF7F7F7F7u32) by (bit_vector);
}

/// Once the XOR layer is removed, the magic value of a recognised file reads
/// plainly.
pub proof fn lemma_magic_plain(raw: Seq<u8>, key: u8)
    requires
        raw.len() >= 4,
        xor_key_of(le_u32(raw, 0)) == Some(key),
    ensures
        le_u32(xored(raw, key), 0) == PAK_MAGIC,
{
    if key == 0 {
        lemma_xored_zero(raw);
        let m = le_u32(raw, 0);
        assert(m ^ 0xF7F7F7F7u32 == 0xBAC04AC0u32 ==> m != 0xBAC04AC0u32) by (bit_vector);
    } else {
        lemma_le_u32_xored(raw, 0);
    }
}

/// Behind `n` records of `rest` that follow `first`, the sizes sum up to the
/// size of `first` and those of the `n` records.
proof fn lemma_size_sum_cons(first: RecordModel, rest: Seq<RecordModel>, n: int)
    requires
        0 <= n <= rest.len(),
    ensures
        size_sum(seq![first] + rest, n + 1) == first.size as nat + size_sum(rest, n),
    decreases n,
{
    let all = seq![first] + rest;
    if n == 0 {
        assert(size_sum(all, 0) == 0);
        assert(all[0] == first);
    } else {
        lemma_size_sum_cons(first, rest, n - 1);
        assert(all[n] == rest[n - 1]);
    }
}

/// In a table that parses, every record starts where the records before it
/// end, counted from `offset`, and the table ends inside the data.
pub proof fn lemma_table_contiguous(data: Seq<u8>, at: int, offset: nat)
    ensures
        table(data, at, offset) matches Ok((records, end)) ==> {
            &&& at < end <= data.len()
            &&& forall|i: int|
                0 <= i < records.len() ==> (#[trigger] records[i]).start_pos == offset + size_sum(
                    records,
                    i,
                )
        },
    decreases data.len() - at,
{
    if at < 0 || at >= data.len() || ends_table(data[at]) {
    } else {
        match entry_at(data, at + 1) {
            Err(_) => {},
            Ok((fname, size, datetime, next)) => {
                if offset <= u64::MAX {
                    lemma_table_contiguous(data, next, offset + size as nat);
                    match table(data, next, offset + size as nat) {
                        Err(_) => {},
                        Ok((rest, end)) => {
                            let first = RecordModel { fname, start_pos: offset, size, datetime };
                            let records = seq![first] + rest;
                            assert forall|i: int| 0 <= i < records.len() implies (
                            #[trigger] records[i]).start_pos == offset + size_sum(records, i) by {
                                if i > 0 {
                                    lemma_size_sum_cons(first, rest, i - 1);
                                    assert(records[i] == rest[i - 1]);
                                }
                            }
                        },
                    }
                }
            },
        }
    }
}

/// In an archive that parses, every record starts at the sum of the sizes of
/// the records before it, the payload is the file with the XOR layer
/// removed, and the data region starts behind the header, inside the
/// payload.
pub proof fn lemma_archive_contiguous(raw: Seq<u8>)
    ensures
        archive(raw) matches Ok(model) ==> {
            &&& contiguous(model.records)
            &&& model.data == xored(raw, model.xor)
            &&& 8 < model.data_pos <= model.data.len()
        },
{
    if raw.len() >= 4 {
        match xor_key_of(le_u32(raw, 0)) {
            None => {},
            Some(key) => {
                lemma_table_contiguous(xored(raw, key), 8, 0);
            },
        }
    }
}

/// A recognised file whose table is its terminator alone parses to no
/// records, and its data region starts at index 9.
pub proof fn lemma_empty_table(raw: Seq<u8>)
    requires
        raw.len() >= 9,
        xor_key_of(le_u32(raw, 0)) is Some,
        ends_table(xored(raw, xor_key_of(le_u32(raw, 0))->Some_0)[8]),
    ensures
        archive(raw) matches Ok(a) && a.records.len() == 0 && a.data_pos == 9,
{
}

/// The sizes of more records sum up to no less.
pub proof fn lemma_size_sum_grows(records: Seq<RecordModel>, i: int, j: int)
    requires
        i <= j,
    ensures
        size_sum(records, i) <= size_sum(records, j),
    decreases j - i,
{
    if i < j {
        lemma_size_sum_grows(records, i, j - 1);
    }
}

/// In an archive that parses, behind a record whose data does not lie
/// inside the payload no later record lies inside it either.
pub proof fn lemma_out_of_bounds_persists(raw: Seq<u8>, i: int, j: int)
    requires
        archive(raw) is Ok,
        0 <= i <= j < archive(raw)->Ok_0.records.len(),
        archive(raw)->Ok_0.slice_of(archive(raw)->Ok_0.records[i]) is None,
    ensures
        archive(raw)->Ok_0.slice_of(archive(raw)->Ok_0.records[j]) is None,
{
    let a = archive(raw)->Ok_0;
    lemma_archive_contiguous(raw);
    if i < j {
        lemma_size_sum_grows(a.records, i + 1, j);
        assert(size_sum(a.records, i + 1) == size_sum(a.records, i) + a.records[i].size);
    }
}

/// `parsed` with the XOR key that it reports exchanged: none for
/// `XOR_KEY`, and `XOR_KEY` for none.
pub open spec fn with_other_key(parsed: Result<ArchiveModel, PakError>) -> Result<
    ArchiveModel,
    PakError,
> {
    match parsed {
        Ok(a) => Ok(
            ArchiveModel {
                is_pak: a.is_pak,
                xor: if a.xor == 0 {
                    XOR_KEY
                } else {
                    0
                },
                version: a.version,
                records: a.records,
                data: a.data,
                data_pos: a.data_pos,
            },
        ),
        Err(e) => Err(e),
    }
}

/// A file and the same bytes XORed with `XOR_KEY` parse alike: they fail
/// with the same error, or give the same payload, version, records and data
/// region, and differ only in the key that they report.
pub proof fn lemma_archive_xor(raw: Seq<u8>)
    ensures
        archive(xored(raw, XOR_KEY)) == with_other_key(archive(raw)),
{
    let other = xored(raw, XOR_KEY);
    if raw.len() >= 4 {
        let m = le_u32(raw, 0);
        lemma_le_u32_xored(raw, 0);
        assert((m ^ 0xF7F7F7F7u32) ^ 0xF7F7F7F7u32 == m) by (bit_vector);
        assert(m == 0xBAC04AC0u32 ==> m ^ 0xF7F7F7F7u32 != 0xBAC04AC0u32) by (bit_vector);
        lemma_xored_zero(raw);
        lemma_xored_zero(other);
        lemma_xored_involution(raw, XOR_KEY);
    }
}

/// The files of an archive are found in the file itself. The payload is the
/// file with the XOR layer removed, so for a plain archive it is the file;
/// and the data of record `i` is the `size` bytes of the payload that start
/// behind the table and the data of the records before it.
pub proof fn lemma_contents_in_file(raw: Seq<u8>, i: int)
    requires
        archive(raw) is Ok,
        0 <= i < archive(raw)->Ok_0.records.len(),
    ensures
        ({
            let a = archive(raw)->Ok_0;
            let from = a.data_pos + size_sum(a.records, i);
            let to = from + a.records[i].size;
            &&& a.data == xored(raw, a.xor)
            &&& a.xor == 0 ==> a.data == raw
            &&& a.slice_of(a.records[i]) == if to <= a.data.len() {
                Some(a.data.subrange(from as int, to as int))
            } else {
                None
            }
        }),
{
    lemma_archive_contiguous(raw);
    lemma_xored_zero(raw);
}

} // verus!
