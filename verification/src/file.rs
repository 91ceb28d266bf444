//! Recognising EU4 save files.
use crate::encoding::Encoding;
use crate::errors::{Eu4Error, Eu4ErrorKind};
use crate::strings::{bytes_eq, seq_starts_with};
use crate::zip::{zip_opens, zip_records, zip_entries_left, zip_archive_from_slice, zip_entries, zip_entry_bytes, zip_entry_data, zip_entries_remaining, zip_next_entry, EntryLocation, ZipBytes};
use std::io::Read;
use vstd::prelude::*;

verus! {

/// The header of a plain text save: `EU4txt`.
pub open spec fn txt_header() -> Seq<u8> {
    seq![69u8, 85u8, 52u8, 116u8, 120u8, 116u8]
}

/// The header of a binary save: `EU4bin`.
pub open spec fn bin_header() -> Seq<u8> {
    seq![69u8, 85u8, 52u8, 98u8, 105u8, 110u8]
}

/// `EU4txt`
pub const TXT_HEADER: [u8; 6] = [69u8, 85u8, 52u8, 116u8, 120u8, 116u8];

/// `EU4bin`
pub const BIN_HEADER: [u8; 6] = [69u8, 85u8, 52u8, 98u8, 105u8, 110u8];

/// Whether `data` is exactly the plain text header.
pub fn is_txt_header(data: &[u8]) -> (b: bool)
    ensures
        b == (data@ == txt_header()),
{
    let h: [u8; 6] = TXT_HEADER;
    assert(h@ =~= txt_header());
    bytes_eq(data, h.as_slice())
}

/// Whether `data` is exactly the binary header.
pub fn is_bin_header(data: &[u8]) -> (b: bool)
    ensures
        b == (data@ == bin_header()),
{
    let h: [u8; 6] = BIN_HEADER;
    assert(h@ =~= bin_header());
    bytes_eq(data, h.as_slice())
}

/// Name of the EU4 entry
#[derive(Debug, Clone, Copy, PartialEq, Eq, Structural, PartialOrd, Ord)]
pub enum Eu4FileEntryName {
    Gamestate,
    Meta,
    Ai,
}

impl Eu4FileEntryName {
    /// The name of the entry in the archive.
    pub fn as_str(&self) -> (s: &'static str)
        ensures
            s@ == (match *self {
                Eu4FileEntryName::Meta => "meta"@,
                Eu4FileEntryName::Gamestate => "gamestate"@,
                Eu4FileEntryName::Ai => "ai"@,
            }),
    {
        match self {
            Eu4FileEntryName::Meta => "meta",
            Eu4FileEntryName::Gamestate => "gamestate",
            Eu4FileEntryName::Ai => "ai",
        }
    }
}

/// The document after the plain text header, when `data` starts with it.
pub fn is_text(data: &[u8]) -> (r: Option<&[u8]>)
    ensures
        r is Some <==> seq_starts_with(data@, txt_header()),
        r matches Some(rest) ==> data@ == txt_header() + rest@,
{
    if data.len() >= 6 && is_txt_header(&data[0..6]) {
        let rest = &data[6..data.len()];
        assert(data@ =~= data@.subrange(0, 6) + rest@);
        Some(rest)
    } else {
        proof {
            if data@.len() >= 6 {
                assert(data@.subrange(0, 6) =~= data@.subrange(0, txt_header().len() as int));
            }
        }
        None
    }
}

/// The first six bytes that inflating the deflate stream `data` yields, or
/// `None` where the stream ends or breaks before them.
pub uninterp spec fn inflated_head(data: Seq<u8>) -> Option<Seq<u8>>;

/// Reads the first six bytes of the deflate stream `data` with
/// `flate2::read::DeflateDecoder`. The bytes read, or that the stream
/// ends or breaks before six bytes, are named `inflated_head` of the stream.
#[verifier::external_body]
fn inflate_head(data: &[u8]) -> (r: Result<[u8; 6], std::io::Error>)
    ensures
        match r {
            Ok(h) => inflated_head(data@) == Some(h@),
            Err(_) => inflated_head(data@) is None,
        },
{
    let mut header = [0u8; 6];
    flate2::read::DeflateDecoder::new(data).read_exact(&mut header).map(|_| header)
}

/// Zip compression method: deflate.
pub const DEFLATE: u16 = 8;

/// Zip compression method: zstandard.
pub const ZSTD: u16 = 93;

/// Whether a document header says the document is text: `Ok(true)` for
/// text, `Ok(false)` for binary, and an error for any other header.
pub fn header_is_text(header: &[u8]) -> (r: Result<bool, Eu4ErrorKind>)
    ensures
        header@ == txt_header() ==> r == Ok::<bool, Eu4ErrorKind>(true),
        header@ == bin_header() ==> r == Ok::<bool, Eu4ErrorKind>(false),
        header@ != txt_header() && header@ != bin_header() ==> r matches Err(
            Eu4ErrorKind::UnknownHeader,
        ),
{
    if is_txt_header(header) {
        Ok(true)
    } else if is_bin_header(header) {
        Ok(false)
    } else {
        Err(Eu4ErrorKind::UnknownHeader)
    }
}

/// The entry reported missing when an archive lacks one of the three
/// entries: the meta entry first, then the gamestate, then the ai.
pub fn missing_entry(has_meta: bool, has_gamestate: bool) -> (n: Eu4FileEntryName)
    ensures
        n == (if !has_meta {
            Eu4FileEntryName::Meta
        } else if !has_gamestate {
            Eu4FileEntryName::Gamestate
        } else {
            Eu4FileEntryName::Ai
        }),
{
    if !has_meta {
        Eu4FileEntryName::Meta
    } else if !has_gamestate {
        Eu4FileEntryName::Gamestate
    } else {
        Eu4FileEntryName::Ai
    }
}

/// The name of a zip entry among the three of a save: `meta`, `gamestate`
/// and `ai`.
pub open spec fn entry_of_path(path: Seq<u8>) -> Option<Eu4FileEntryName> {
    if path == seq![109u8, 101u8, 116u8, 97u8] {
        Some(Eu4FileEntryName::Meta)
    } else if path == seq![103u8, 97u8, 109u8, 101u8, 115u8, 116u8, 97u8, 116u8, 101u8] {
        Some(Eu4FileEntryName::Gamestate)
    } else if path == seq![97u8, 105u8] {
        Some(Eu4FileEntryName::Ai)
    } else {
        None
    }
}

/// Which of the three entries of a save a zip path names, if any.
pub fn entry_name_of_path(path: &[u8]) -> (r: Option<Eu4FileEntryName>)
    ensures
        r == entry_of_path(path@),
{
    let meta: [u8; 4] = [109u8, 101u8, 116u8, 97u8];
    let gamestate: [u8; 9] = [103u8, 97u8, 109u8, 101u8, 115u8, 116u8, 97u8, 116u8, 101u8];
    let ai: [u8; 2] = [97u8, 105u8];
    assert(meta@ =~= seq![109u8, 101u8, 116u8, 97u8]);
    assert(gamestate@ =~= seq![103u8, 97u8, 109u8, 101u8, 115u8, 116u8, 97u8, 116u8, 101u8]);
    assert(ai@ =~= seq![97u8, 105u8]);
    if bytes_eq(path, meta.as_slice()) {
        Some(Eu4FileEntryName::Meta)
    } else if bytes_eq(path, gamestate.as_slice()) {
        Some(Eu4FileEntryName::Gamestate)
    } else if bytes_eq(path, ai.as_slice()) {
        Some(Eu4FileEntryName::Ai)
    } else {
        None
    }
}

/// A zip archive holding the three entries of a save.
pub struct Eu4SliceZip<'a> {
    zip: ZipBytes<'a>,
    compression: u16,
    meta: EntryLocation,
    gamestate: EntryLocation,
    ai: EntryLocation,
    is_text: bool,
}

impl<'a> Eu4SliceZip<'a> {
    pub closed spec fn spec_is_text(&self) -> bool {
        self.is_text
    }

    pub closed spec fn spec_compression(&self) -> u16 {
        self.compression
    }

    /// The bytes of the archive.
    pub closed spec fn spec_data(&self) -> Seq<u8> {
        self.zip.spec_data()
    }

    /// Where the entry of this name lies in the archive.
    pub closed spec fn spec_location(&self, name: Eu4FileEntryName) -> EntryLocation {
        match name {
            Eu4FileEntryName::Meta => self.meta,
            Eu4FileEntryName::Gamestate => self.gamestate,
            Eu4FileEntryName::Ai => self.ai,
        }
    }

    /// The raw data that the archive holds for the entry of this name, or
    /// `None` where it cannot be read.
    pub open spec fn spec_entry_bytes(&self, name: Eu4FileEntryName) -> Option<Seq<u8>> {
        zip_entry_bytes(
            self.spec_data(),
            self.spec_location(name).spec_offset(),
            self.spec_location(name).spec_size(),
        )
    }

    /// Whether the entries are plain text (else binary).
    pub fn is_text(&self) -> (b: bool)
        ensures
            b == self.spec_is_text(),
    {
        self.is_text
    }

    /// The zip compression method id of the entries.
    pub fn compression(&self) -> (c: u16)
        ensures
            c == self.spec_compression(),
    {
        self.compression
    }

    /// Where the entry of this name lies in the archive.
    pub fn location(&self, name: Eu4FileEntryName) -> (l: EntryLocation)
        ensures
            l == self.spec_location(name),
    {
        match name {
            Eu4FileEntryName::Meta => self.meta,
            Eu4FileEntryName::Gamestate => self.gamestate,
            Eu4FileEntryName::Ai => self.ai,
        }
    }

    /// The raw (compressed) data of one of the three entries.
    pub fn entry_data(&self, name: Eu4FileEntryName) -> (r: Result<&[u8], Eu4ErrorKind>)
        ensures
            match r {
                Ok(d) => self.spec_entry_bytes(name) == Some(d@),
                Err(e) => e is Zip && self.spec_entry_bytes(name) is None,
            },
    {
        let location = match name {
            Eu4FileEntryName::Meta => self.meta,
            Eu4FileEntryName::Gamestate => self.gamestate,
            Eu4FileEntryName::Ai => self.ai,
        };
        match zip_entry_data(&self.zip, location) {
            Ok(d) => Ok(d),
            Err(e) => Err(Eu4ErrorKind::Zip(e)),
        }
    }
}

/// The kind of a save held in memory.
pub enum Eu4SliceFileKind<'a> {
    /// Plain text, after the header.
    Text(&'a [u8]),
    /// Binary, after the header.
    Binary(&'a [u8]),
    /// A zip archive of the three entries.
    Zip(Eu4SliceZip<'a>),
}

/// A save held in memory.
pub struct Eu4SliceFile<'a> {
    kind: Eu4SliceFileKind<'a>,
}

/// The encoding of a save of this kind.
pub open spec fn kind_encoding(kind: Eu4SliceFileKind) -> Encoding {
    match kind {
        Eu4SliceFileKind::Text(_) => Encoding::Text,
        Eu4SliceFileKind::Binary(_) => Encoding::Binary,
        Eu4SliceFileKind::Zip(z) => if z.spec_is_text() {
            Encoding::TextZip
        } else {
            Encoding::BinaryZip
        },
    }
}

impl<'a> Eu4SliceFile<'a> {
    pub closed spec fn spec_kind(&self) -> &Eu4SliceFileKind<'a> {
        &self.kind
    }

    /// What the save is.
    pub fn kind(&self) -> (k: &Eu4SliceFileKind<'a>)
        ensures
            k == self.spec_kind(),
    {
        &self.kind
    }

    pub fn encoding(&self) -> (e: Encoding)
        ensures
            e == kind_encoding(*self.spec_kind()),
    {
        match &self.kind {
            Eu4SliceFileKind::Text(_) => Encoding::Text,
            Eu4SliceFileKind::Binary(_) => Encoding::Binary,
            Eu4SliceFileKind::Zip(archive) => {
                if archive.is_text {
                    Encoding::TextZip
                } else {
                    Encoding::BinaryZip
                }
            },
        }
    }
}

/// Deserializes a document that starts with its header, text or binary,
/// through a token resolver.
#[derive(Debug)]
pub struct Eu4Modeller<'res, Reader, Resolver> {
    reader: Reader,
    resolver: &'res Resolver,
}

impl<'res, Reader, Resolver> Eu4Modeller<'res, Reader, Resolver> {
    pub closed spec fn spec_reader(&self) -> Reader {
        self.reader
    }

    pub closed spec fn spec_resolver(&self) -> &'res Resolver {
        self.resolver
    }

    pub fn from_reader(reader: Reader, resolver: &'res Resolver) -> (m: Self)
        ensures
            m.spec_reader() == reader,
            m.spec_resolver() == resolver,
    {
        Eu4Modeller { reader, resolver }
    }

    pub fn into_inner(self) -> (r: Reader)
        ensures
            r == self.spec_reader(),
    {
        self.reader
    }

    /// The reader and the resolver, to read the header and the document.
    pub fn parts(&mut self) -> (r: (&mut Reader, &'res Resolver))
        ensures
            *r.0 == old(self).spec_reader(),
            r.1 == old(self).spec_resolver(),
            final(self).spec_reader() == *final(r.0),
            final(self).spec_resolver() == old(self).spec_resolver(),
    {
        (&mut self.reader, self.resolver)
    }
}

/// Why recognising a zip archive as a save fails.
pub enum ZipScanFailure {
    /// An entry's data could not be found.
    Zip,
    /// The meta entry is not deflate compressed.
    UnknownCompression,
    /// The meta entry ends or breaks before its header.
    Io,
    /// The meta entry's header is neither text nor binary.
    UnknownHeader,
    /// The records end without this entry.
    Missing(Eu4FileEntryName),
}

/// What going through the records of a zip archive gives: where the three
/// entries lie (offset and compressed size), the compression method of the
/// record that completed them and whether the meta entry is text; or why
/// it fails.
pub enum ZipScan {
    Found {
        meta: (u64, u64),
        gamestate: (u64, u64),
        ai: (u64, u64),
        compression: u16,
        is_text: bool,
    },
    Failed(ZipScanFailure),
}

/// After a record with this compression method: the entries found, if all
/// three are, else the scan of the following records.
pub open spec fn zip_scan_after(
    data: Seq<u8>,
    recs: Seq<(Seq<u8>, u16, u64, u64)>,
    i: int,
    meta: Option<(u64, u64)>,
    gamestate: Option<(u64, u64)>,
    ai: Option<(u64, u64)>,
    is_text: bool,
    compression: u16,
) -> ZipScan
    decreases recs.len() - i, 0int,
{
    if meta is Some && gamestate is Some && ai is Some {
        ZipScan::Found {
            meta: meta->0,
            gamestate: gamestate->0,
            ai: ai->0,
            compression,
            is_text,
        }
    } else if 0 <= i < recs.len() {
        zip_scan(data, recs, i + 1, meta, gamestate, ai, is_text)
    } else {
        ZipScan::Failed(ZipScanFailure::Missing(missing_of(meta is Some, gamestate is Some)))
    }
}

/// The entry reported missing when the records run out.
pub open spec fn missing_of(has_meta: bool, has_gamestate: bool) -> Eu4FileEntryName {
    if !has_meta {
        Eu4FileEntryName::Meta
    } else if !has_gamestate {
        Eu4FileEntryName::Gamestate
    } else {
        Eu4FileEntryName::Ai
    }
}

/// Going through the records `recs` of the zip archive `data` from record
/// `i` on, with the entries found so far. A `meta` record has its data read
/// and its header inflated (deflate only) to tell text from binary; the
/// first record that completes the three entries ends the scan. Records
/// running out report the first entry missing.
pub open spec fn zip_scan(
    data: Seq<u8>,
    recs: Seq<(Seq<u8>, u16, u64, u64)>,
    i: int,
    meta: Option<(u64, u64)>,
    gamestate: Option<(u64, u64)>,
    ai: Option<(u64, u64)>,
    is_text: bool,
) -> ZipScan
    decreases recs.len() - i, 1int,
{
    if i < 0 || i >= recs.len() {
        ZipScan::Failed(ZipScanFailure::Missing(missing_of(meta is Some, gamestate is Some)))
    } else {
        let (path, compression, offset, size) = recs[i];
        match entry_of_path(path) {
            Some(Eu4FileEntryName::Meta) => match zip_entry_bytes(data, offset, size) {
                None => ZipScan::Failed(ZipScanFailure::Zip),
                Some(b) => if compression != DEFLATE {
                    ZipScan::Failed(ZipScanFailure::UnknownCompression)
                } else {
                    match inflated_head(b) {
                        None => ZipScan::Failed(ZipScanFailure::Io),
                        Some(h) => if h == txt_header() || h == bin_header() {
                            zip_scan_after(
                                data,
                                recs,
                                i,
                                Some((offset, size)),
                                gamestate,
                                ai,
                                h == txt_header(),
                                compression,
                            )
                        } else {
                            ZipScan::Failed(ZipScanFailure::UnknownHeader)
                        },
                    }
                },
            },
            Some(Eu4FileEntryName::Gamestate) => zip_scan_after(
                data,
                recs,
                i,
                meta,
                Some((offset, size)),
                ai,
                is_text,
                compression,
            ),
            Some(Eu4FileEntryName::Ai) => zip_scan_after(
                data,
                recs,
                i,
                meta,
                gamestate,
                Some((offset, size)),
                is_text,
                compression,
            ),
            None => zip_scan_after(data, recs, i, meta, gamestate, ai, is_text, compression),
        }
    }
}

/// The offset and compressed size of a location, if there is one.
pub open spec fn option_location(l: Option<EntryLocation>) -> Option<(u64, u64)> {
    match l {
        Some(l) => Some(location_view(l)),
        None => None,
    }
}

/// The view of an entry location: its offset and compressed size.
pub open spec fn location_view(l: EntryLocation) -> (u64, u64) {
    (l.spec_offset(), l.spec_size())
}

/// Whether `r` is what recognising the zip archive `data` gives by the scan
/// of its records.
pub open spec fn zip_recognised(data: Seq<u8>, r: Result<Eu4SliceFile, Eu4Error>) -> bool {
    match zip_scan(data, zip_records(data), 0, None, None, None, true) {
        ZipScan::Found { meta, gamestate, ai, compression, is_text } => r matches Ok(f)
            && f.spec_kind() matches Eu4SliceFileKind::Zip(z) && z.spec_data() == data
            && location_view(z.spec_location(Eu4FileEntryName::Meta)) == meta
            && location_view(z.spec_location(Eu4FileEntryName::Gamestate)) == gamestate
            && location_view(z.spec_location(Eu4FileEntryName::Ai)) == ai
            && z.spec_compression() == compression && z.spec_is_text() == is_text,
        ZipScan::Failed(k) => r matches Err(e) && match k {
            ZipScanFailure::Zip => e.spec_kind() is Zip,
            ZipScanFailure::UnknownCompression => e.spec_kind() is UnknownCompression,
            ZipScanFailure::Io => e.spec_kind() is Io,
            ZipScanFailure::UnknownHeader => e.spec_kind() is UnknownHeader,
            ZipScanFailure::Missing(n) => e.spec_kind() == Eu4ErrorKind::MissingFile(n),
        },
    }
}

/// Whether jomini parses `data` as a text document.
pub uninterp spec fn text_parses(data: Seq<u8>) -> bool;

/// Calls `jomini::TextTape::from_slice`; whether it parses the document is
/// named `text_parses` of the bytes.
#[verifier::external_body]
fn parse_text_tape<'a>(data: &'a [u8]) -> (r: Result<jomini::TextTape<'a>, jomini::Error>)
    ensures
        r is Ok <==> text_parses(data@),
{
    jomini::TextTape::from_slice(data)
}

/// A parsed EU4 text document
pub struct Eu4ParsedText<'a> {
    tape: jomini::TextTape<'a>,
}

impl<'a> Eu4ParsedText<'a> {
    pub closed spec fn spec_tape(&self) -> jomini::TextTape<'a> {
        self.tape
    }

    /// Parse EU4 text data that has the "EU4txt" header
    pub fn from_slice(data: &'a [u8]) -> (r: Result<Self, Eu4Error>)
        ensures
            !seq_starts_with(data@, txt_header()) ==> (r matches Err(e) && e.spec_kind() is UnknownHeader),
            seq_starts_with(data@, txt_header()) ==> {
                &&& (r is Ok <==> text_parses(data@.skip(6)))
                &&& (r matches Err(e) ==> e.spec_kind() is Parse)
            },
    {
        match is_text(data) {
            Some(rest) => {
                proof {
                    assert(rest@ =~= data@.skip(6));
                }
                Self::from_raw(rest)
            },
            None => Err(Eu4Error::new(Eu4ErrorKind::UnknownHeader)),
        }
    }

    /// Parse headerless EU4 text data
    pub fn from_raw(data: &'a [u8]) -> (r: Result<Self, Eu4Error>)
        ensures
            r is Ok <==> text_parses(data@),
            r matches Err(e) ==> e.spec_kind() is Parse,
    {
        match parse_text_tape(data) {
            Ok(tape) => Ok(Eu4ParsedText { tape }),
            Err(e) => Err(Eu4Error::new(Eu4ErrorKind::Parse(e))),
        }
    }

    /// The parsed tokens, to read the document with.
    pub fn tape(&self) -> (t: &jomini::TextTape<'a>)
        ensures
            *t == self.spec_tape(),
    {
        &self.tape
    }
}

/// Entry point for recognising a save.
pub struct Eu4File {}

impl Eu4File {
    /// Recognises a save held in memory: plain text and binary saves by
    /// their header, anything else as a zip archive that must hold the meta,
    /// gamestate and ai entries. The header of the (deflate compressed) meta
    /// entry tells whether the archive holds text or binary.
    pub fn from_slice<'a>(data: &'a [u8]) -> (r: Result<Eu4SliceFile<'a>, Eu4Error>)
        ensures
            seq_starts_with(data@, txt_header()) ==> (r matches Ok(f) && f.spec_kind() matches Eu4SliceFileKind::Text(rest) && data@ == txt_header() + rest@),
            seq_starts_with(data@, bin_header()) ==> (r matches Ok(f) && f.spec_kind() matches Eu4SliceFileKind::Binary(rest) && data@ == bin_header() + rest@),
            !seq_starts_with(data@, txt_header()) && !seq_starts_with(data@, bin_header()) ==> {
                &&& !zip_opens(data@) ==> (r matches Err(e) && e.spec_kind() is Zip)
                &&& zip_opens(data@) ==> zip_recognised(data@, r)
            },
    {
        if data.len() >= 6 {
            let head = &data[0..6];
            if is_txt_header(head) {
                let rest = &data[6..data.len()];
                assert(data@ =~= head@ + rest@);
                return Ok(Eu4SliceFile { kind: Eu4SliceFileKind::Text(rest) });
            }
            if is_bin_header(head) {
                let rest = &data[6..data.len()];
                assert(data@ =~= head@ + rest@);
                return Ok(Eu4SliceFile { kind: Eu4SliceFileKind::Binary(rest) });
            }
            proof {
                assert(head@ =~= data@.subrange(0, 6));
            }
        }
        let zip = match zip_archive_from_slice(data) {
            Ok(a) => a,
            Err(e) => return Err(Eu4Error::new(Eu4ErrorKind::Zip(e))),
        };
        let ghost recs = zip_records(data@);
        let ghost whole = zip_scan(data@, recs, 0, None, None, None, true);
        let ghost mut k: int = 0;
        let mut meta: Option<EntryLocation> = None;
        let mut gamestate: Option<EntryLocation> = None;
        let mut ai: Option<EntryLocation> = None;
        let mut is_text = true;
        let mut entries = zip_entries(&zip);
        proof {
            assert(recs.skip(0) =~= recs);
        }
        loop
            invariant_except_break
                zip_entries_left(entries) == recs.skip(k),
            invariant
                !seq_starts_with(data@, txt_header()),
                !seq_starts_with(data@, bin_header()),
                zip_opens(data@),
                zip.spec_data() == data@,
                recs == zip_records(data@),
                whole == zip_scan(data@, recs, 0, None, None, None, true),
                0 <= k <= recs.len(),
                whole == zip_scan(data@, recs, k, option_location(meta), option_location(gamestate), option_location(ai), is_text),
            ensures
                k == recs.len(),
                whole == zip_scan(data@, recs, k, option_location(meta), option_location(gamestate), option_location(ai), is_text),
            decreases zip_entries_remaining(entries),
        {
            let entry = match zip_next_entry(&mut entries) {
                Ok(Some(entry)) => entry,
                _ => break,
            };
            let ghost rec = recs[k];
            proof {
                assert(entry.view_record() == rec);
                assert(recs.skip(k).drop_first() =~= recs.skip(k + 1));
            }
            let ghost m0 = option_location(meta);
            let ghost g0 = option_location(gamestate);
            let ghost a0 = option_location(ai);
            let ghost t0 = is_text;
            proof {
                assert(whole == zip_scan(data@, recs, k, m0, g0, a0, t0));
            }
            let compression = entry.compression;
            match entry_name_of_path(entry.path) {
                Some(Eu4FileEntryName::Meta) => {
                    let location = entry.location;
                    meta = Some(location);
                    let ent = match zip_entry_data(&zip, location) {
                        Ok(d) => d,
                        Err(e) => return Err(Eu4Error::new(Eu4ErrorKind::Zip(e))),
                    };
                    let header = if compression == DEFLATE {
                        match inflate_head(ent) {
                            Ok(h) => h,
                            Err(e) => {
                                return Err(Eu4Error::new(Eu4ErrorKind::Io(e)));
                            },
                        }
                    } else {
                        return Err(Eu4Error::new(Eu4ErrorKind::UnknownCompression));
                    };
                    is_text = match header_is_text(header.as_slice()) {
                        Ok(t) => t,
                        Err(e) => return Err(Eu4Error::new(e)),
                    };
                },
                Some(Eu4FileEntryName::Gamestate) => gamestate = Some(entry.location),
                Some(Eu4FileEntryName::Ai) => ai = Some(entry.location),
                None => {},
            }
            if meta.is_some() && gamestate.is_some() && ai.is_some() {
                return Ok(Eu4SliceFile {
                    kind: Eu4SliceFileKind::Zip(Eu4SliceZip {
                        zip,
                        meta: meta.unwrap(),
                        gamestate: gamestate.unwrap(),
                        ai: ai.unwrap(),
                        compression,
                        is_text,
                    }),
                });
            }
            proof {
                k = k + 1;
            }
        }
        Err(Eu4Error::new(Eu4ErrorKind::MissingFile(missing_entry(meta.is_some(), gamestate.is_some()))))
    }
}

} // verus!
