//! The zip archives that hold compressed saves, read with rawzip.
//!
//! The values of this module are built only by the functions here that call
//! rawzip, so an archive always sits next to the bytes it was read from, and
//! an entry's location next to the record it was read from.
use vstd::prelude::*;

verus! {

/// A zip archive over a byte slice.
#[verifier::external_type_specification]
#[verifier::external_body]
#[verifier::reject_recursive_types(T)]
pub struct ExZipSliceArchive<T>(rawzip::ZipSliceArchive<T>);

/// The records of the central directory of a zip archive, in order.
#[verifier::external_type_specification]
#[verifier::external_body]
pub struct ExZipSliceEntries<'data>(rawzip::ZipSliceEntries<'data>);

/// A record of the central directory of a zip archive.
#[verifier::external_type_specification]
#[verifier::external_body]
pub struct ExZipFileHeaderRecord<'a>(rawzip::ZipFileHeaderRecord<'a>);

/// Where an entry's data lies within a zip archive.
#[verifier::external_type_specification]
#[verifier::external_body]
pub struct ExZipArchiveEntryWayfinder(rawzip::ZipArchiveEntryWayfinder);

/// A zip archive together with the bytes it was read from.
pub struct ZipBytes<'a> {
    archive: rawzip::ZipSliceArchive<&'a [u8]>,
    data: &'a [u8],
}

impl<'a> ZipBytes<'a> {
    /// The bytes of the archive.
    pub closed spec fn spec_data(&self) -> Seq<u8> {
        self.data@
    }
}

/// Where an entry lies in its archive: the offset of its local header and
/// the size of its compressed data, as its central directory record gives
/// them.
#[derive(Clone, Copy)]
pub struct EntryLocation {
    wayfinder: rawzip::ZipArchiveEntryWayfinder,
    offset: u64,
    size: u64,
    crc: u32,
    uncompressed_size: u64,
}

impl EntryLocation {
    /// The offset of the entry's local header.
    pub closed spec fn spec_offset(&self) -> u64 {
        self.offset
    }

    /// The size of the entry's compressed data.
    pub closed spec fn spec_size(&self) -> u64 {
        self.size
    }

    /// The CRC-32 checksum that the record claims for the entry's data.
    pub closed spec fn spec_crc(&self) -> u32 {
        self.crc
    }

    /// The size that the record claims for the entry's inflated data.
    pub closed spec fn spec_uncompressed_size(&self) -> u64 {
        self.uncompressed_size
    }

    /// The CRC-32 checksum that the record claims for the entry's data.
    pub fn crc(&self) -> (c: u32)
        ensures
            c == self.spec_crc(),
    {
        self.crc
    }

    /// The size that the record claims for the entry's inflated data.
    pub fn uncompressed_size(&self) -> (n: u64)
        ensures
            n == self.spec_uncompressed_size(),
    {
        self.uncompressed_size
    }
}

/// What the library reads of a record of the central directory.
pub struct ZipEntryRecord<'a> {
    /// The raw path of the entry.
    pub path: &'a [u8],
    /// The zip compression method id.
    pub compression: u16,
    /// Where the entry's data lies.
    pub location: EntryLocation,
}

impl<'a> ZipEntryRecord<'a> {
    /// The path, compression method id, local header offset and compressed
    /// size of the record.
    pub open spec fn view_record(&self) -> (Seq<u8>, u16, u64, u64) {
        (self.path@, self.compression, self.location.spec_offset(), self.location.spec_size())
    }
}

/// Whether rawzip finds the end of a central directory in `data`, so that
/// `data` opens as a zip archive.
pub uninterp spec fn zip_opens(data: Seq<u8>) -> bool;

/// The records that rawzip reads, in order, from the central directory of
/// the zip archive `data`, up to the end of the directory or the first
/// record it cannot read: each as its path, compression method id, local
/// header offset and compressed size.
pub uninterp spec fn zip_records(data: Seq<u8>) -> Seq<(Seq<u8>, u16, u64, u64)>;

/// The records that an entry iterator has yet to yield before it reaches
/// the end of the directory or a record it cannot read.
pub uninterp spec fn zip_entries_left(entries: rawzip::ZipSliceEntries) -> Seq<(Seq<u8>, u16, u64, u64)>;

/// The number of bytes of the central directory that an entry iterator has
/// yet to read.
pub uninterp spec fn zip_entries_remaining(entries: rawzip::ZipSliceEntries) -> nat;

/// The raw (compressed) data that rawzip finds in the archive `data` for the
/// entry whose local header is at `offset` and whose compressed data is
/// `size` bytes long; `None` where rawzip reports an error instead.
pub uninterp spec fn zip_entry_bytes(data: Seq<u8>, offset: u64, size: u64) -> Option<Seq<u8>>;

/// The CRC-32 checksum that rawzip computes of `data`.
pub uninterp spec fn crc32_of(data: Seq<u8>) -> u32;

/// Calls `rawzip::crc32`; its result is named `crc32_of` of the bytes.
#[verifier::external_body]
pub fn zip_crc32(data: &[u8]) -> (c: u32)
    ensures
        c == crc32_of(data@),
{
    rawzip::crc32(data)
}

/// Calls `rawzip::ZipVerification::valid` on the claimed and the actual
/// checksum and size, which fails exactly when they differ.
#[verifier::external_body]
pub fn zip_check_claim(claimed_crc: u32, claimed_size: u64, crc: u32, size: u64) -> (r: Result<(), rawzip::Error>)
    ensures
        r is Ok <==> (claimed_crc == crc && claimed_size == size),
{
    rawzip::ZipVerification { crc: claimed_crc, uncompressed_size: claimed_size }.valid(
        rawzip::ZipVerification { crc, uncompressed_size: size },
    )
}

/// Calls `rawzip::ZipArchive::from_slice`, which locates the end of the
/// central directory; whether it finds it is named `zip_opens` of the
/// bytes, and the archive it returns reads the bytes it was given.
#[verifier::external_body]
pub fn zip_archive_from_slice<'a>(data: &'a [u8]) -> (r: Result<ZipBytes<'a>, rawzip::Error>)
    ensures
        r is Ok <==> zip_opens(data@),
        r matches Ok(z) ==> z.spec_data() == data@,
{
    rawzip::ZipArchive::from_slice(data).map(|archive| ZipBytes { archive, data })
}

/// Calls `rawzip::ZipSliceArchive::entries`: an iterator at the start of
/// the central directory, which yields the records named `zip_records` of
/// the archive's bytes.
#[verifier::external_body]
pub fn zip_entries<'b, 'a>(zip: &'b ZipBytes<'a>) -> (r: rawzip::ZipSliceEntries<'b>)
    ensures
        zip_entries_left(r) == zip_records(zip.spec_data()),
{
    zip.archive.entries()
}

/// Calls `rawzip::ZipSliceEntries::next_entry` and reads the path, the
/// compression method, the local header offset, the compressed size and the
/// wayfinder of the record. Each record read consumes at least the fixed
/// part of a central directory header, so a record is only returned while
/// the bytes left to read shrink. It yields the next record it has left,
/// and once none is left it yields no record.
#[verifier::external_body]
pub fn zip_next_entry<'a>(entries: &mut rawzip::ZipSliceEntries<'a>) -> (r: Result<Option<ZipEntryRecord<'a>>, rawzip::Error>)
    ensures
        r matches Ok(Some(_)) ==> zip_entries_remaining(*final(entries)) < zip_entries_remaining(*old(entries)),
        zip_entries_left(*old(entries)).len() > 0 ==> (r matches Ok(Some(rec))
            && rec.view_record() == zip_entries_left(*old(entries))[0]
            && zip_entries_left(*final(entries)) == zip_entries_left(*old(entries)).drop_first()),
        zip_entries_left(*old(entries)).len() == 0 ==> !(r matches Ok(Some(_))),
{
    entries.next_entry().map(|o| o.map(|rec| ZipEntryRecord {
        path: rec.file_path().as_bytes(),
        compression: rec.compression_method().as_u16(),
        location: EntryLocation {
            wayfinder: rec.wayfinder(),
            offset: rec.local_header_offset(),
            size: rec.compressed_size_hint(),
            crc: rec.crc32(),
            uncompressed_size: rec.uncompressed_size_hint(),
        },
    }))
}

/// Calls `rawzip::ZipSliceArchive::get_entry` with the entry's wayfinder and
/// returns the entry's raw (compressed) data. rawzip reads it from the
/// archive's bytes at the local header offset and compressed size that the
/// wayfinder carries, which are those of the location; the result is named
/// `zip_entry_bytes` of them.
#[verifier::external_body]
pub fn zip_entry_data<'b, 'a>(zip: &'b ZipBytes<'a>, location: EntryLocation) -> (r: Result<&'b [u8], rawzip::Error>)
    ensures
        match r {
            Ok(d) => zip_entry_bytes(zip.spec_data(), location.spec_offset(), location.spec_size()) == Some(d@),
            Err(_) => zip_entry_bytes(zip.spec_data(), location.spec_offset(), location.spec_size()) is None,
        },
{
    zip.archive.get_entry(location.wayfinder).map(|e| e.data())
}

} // verus!
