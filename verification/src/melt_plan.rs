//! How a save in memory is turned into text: plain text is copied, binary
//! parts are melted with options fitted to each part.
use crate::errors::{Eu4Error, Eu4ErrorKind};
use crate::file::{txt_header, Eu4FileEntryName, Eu4SliceFile, Eu4SliceFileKind, Eu4SliceZip, DEFLATE};
use crate::melt::MeltOptions;
use crate::zip::{crc32_of, zip_check_claim, zip_crc32};
use std::io::Read;
use vstd::prelude::*;

verus! {

/// What inflating the deflate stream `data` to its end yields, if it is a
/// valid stream.
pub uninterp spec fn inflated(data: Seq<u8>) -> Option<Seq<u8>>;

/// Inflates the whole deflate stream `data` with
/// `flate2::read::DeflateDecoder` and `Read::read_to_end`. The bytes it
/// yields, and whether it fails, are named `inflated` of the stream; the
/// error that comes with a failure is not described.
#[verifier::external_body]
fn inflate_all(data: &[u8]) -> (r: Result<Vec<u8>, std::io::Error>)
    ensures
        r is Ok <==> inflated(data@) is Some,
        r matches Ok(v) ==> inflated(data@) == Some(v@),
{
    let mut out = Vec::new();
    flate2::read::DeflateDecoder::new(data).read_to_end(&mut out).map(|_| out)
}

/// The error that `Read::read_exact` reports when the data ends too soon:
/// `std::io::Error::from(std::io::ErrorKind::UnexpectedEof)`. Nothing is
/// claimed of the value.
#[verifier::external_body]
fn unexpected_eof() -> (e: std::io::Error) {
    std::io::Error::from(std::io::ErrorKind::UnexpectedEof)
}

/// The bytes of a part to melt: borrowed from the save or inflated from it.
pub enum MeltBytes<'a> {
    Borrowed(&'a [u8]),
    Owned(Vec<u8>),
}

impl<'a> MeltBytes<'a> {
    pub open spec fn spec_bytes(&self) -> Seq<u8> {
        match self {
            MeltBytes::Borrowed(b) => b@,
            MeltBytes::Owned(v) => v@,
        }
    }

    pub fn as_slice(&self) -> (r: &[u8])
        ensures
            r@ == self.spec_bytes(),
    {
        match self {
            MeltBytes::Borrowed(b) => b,
            MeltBytes::Owned(v) => v.as_slice(),
        }
    }
}

/// Where a binary part comes from: bytes of the save, or an entry of its
/// zip archive, inflated when the part is melted.
#[derive(Debug, Clone, Copy, PartialEq, Eq)]
pub enum MeltSource<'a> {
    Bytes(&'a [u8]),
    Entry(Eu4FileEntryName),
}

/// A binary part and the options to melt it with.
pub struct MeltPart<'a> {
    pub data: MeltSource<'a>,
    pub options: MeltOptions,
}

/// How a save becomes text: either the text itself, or the text header
/// followed by the melted binary parts, in order.
pub enum MeltPlan<'a> {
    Text(Vec<u8>),
    Binary(Vec<MeltPart<'a>>),
}

/// The header written before a melted save: the text header and a newline.
pub open spec fn melted_header() -> Seq<u8> {
    txt_header().push(10u8)
}

/// The length of the header that the gamestate and ai entries of a text
/// archive start with, newline included.
pub const ENTRY_HEADER_LEN: usize = 7;

fn append_bytes(out: &mut Vec<u8>, data: &[u8])
    ensures
        final(out)@ == old(out)@ + data@,
{
    let ghost start = out@;
    let mut k: usize = 0;
    while k < data.len()
        invariant
            k <= data@.len(),
            out@ == start + data@.take(k as int),
        decreases data@.len() - k,
    {
        out.push(data[k]);
        proof {
            assert(data@.take(k + 1) =~= data@.take(k as int).push(data@[k as int]));
            assert(start + data@.take(k + 1) =~= (start + data@.take(k as int)).push(data@[k as int]));
        }
        k = k + 1;
    }
    proof {
        assert(data@.take(k as int) =~= data@);
    }
}

/// The text header and a newline, followed by `data`.
pub fn with_text_header(data: &[u8]) -> (r: Vec<u8>)
    ensures
        r@ == melted_header() + data@,
{
    let mut out: Vec<u8> = Vec::new();
    out.push(0x45u8);
    out.push(0x55u8);
    out.push(0x34u8);
    out.push(0x74u8);
    out.push(0x78u8);
    out.push(0x74u8);
    out.push(0x0au8);
    proof {
        assert(out@ =~= melted_header());
    }
    append_bytes(&mut out, data);
    out
}

/// The text of a text archive: the meta entry whole, then the gamestate and
/// ai entries each without the header line they start with. An entry too
/// short to hold that header is an error, as reading it would end early.
pub fn join_text_entries(meta: &[u8], gamestate: &[u8], ai: &[u8]) -> (r: Result<Vec<u8>, Eu4Error>)
    ensures
        gamestate@.len() >= 7 && ai@.len() >= 7 <==> r is Ok,
        r matches Ok(v) ==> v@ == meta@ + gamestate@.skip(7) + ai@.skip(7),
        r matches Err(e) ==> e.spec_kind() is Io,
{
    if gamestate.len() < ENTRY_HEADER_LEN || ai.len() < ENTRY_HEADER_LEN {
        return Err(Eu4Error::new(Eu4ErrorKind::Io(unexpected_eof())));
    }
    let mut out: Vec<u8> = Vec::new();
    append_bytes(&mut out, meta);
    append_bytes(&mut out, &gamestate[ENTRY_HEADER_LEN..gamestate.len()]);
    append_bytes(&mut out, &ai[ENTRY_HEADER_LEN..ai.len()]);
    proof {
        assert(gamestate@.subrange(7, gamestate@.len() as int) =~= gamestate@.skip(7));
        assert(ai@.subrange(7, ai@.len() as int) =~= ai@.skip(7));
    }
    Ok(out)
}

/// The inflated bytes of the entry of this name, when its compression is
/// deflate, its data can be read and it inflates.
pub open spec fn entry_contents(z: Eu4SliceZip, name: Eu4FileEntryName) -> Option<Seq<u8>> {
    if z.spec_compression() != DEFLATE {
        None
    } else {
        match z.spec_entry_bytes(name) {
            None => None,
            Some(b) => inflated(b),
        }
    }
}

/// Whether `k` is the error that reading the entry of this name gives: an
/// unknown compression, the entry's data not found, or a broken stream.
pub open spec fn entry_failure(z: Eu4SliceZip, name: Eu4FileEntryName, k: Eu4ErrorKind) -> bool {
    if z.spec_compression() != DEFLATE {
        k is UnknownCompression
    } else if z.spec_entry_bytes(name) is None {
        k is Zip
    } else {
        k is Io
    }
}

/// What a text archive becomes, reading its entries in turn: the meta entry
/// whole, then the gamestate and ai entries without their header line; the
/// first entry that cannot be read, or that is too short to hold its
/// header line, is the error.
pub open spec fn text_zip_plan(z: Eu4SliceZip, r: Result<MeltPlan, Eu4Error>) -> bool {
    match entry_contents(z, Eu4FileEntryName::Meta) {
        None => r matches Err(e) && entry_failure(z, Eu4FileEntryName::Meta, e.spec_kind()),
        Some(m) => match entry_contents(z, Eu4FileEntryName::Gamestate) {
            None => r matches Err(e) && entry_failure(z, Eu4FileEntryName::Gamestate, e.spec_kind()),
            Some(g) => if g.len() < 7 {
                r matches Err(e) && e.spec_kind() is Io
            } else {
                match entry_contents(z, Eu4FileEntryName::Ai) {
                    None => r matches Err(e) && entry_failure(z, Eu4FileEntryName::Ai, e.spec_kind()),
                    Some(a) => if a.len() < 7 {
                        r matches Err(e) && e.spec_kind() is Io
                    } else {
                        r matches Ok(MeltPlan::Text(v)) && v@ == m + g.skip(7) + a.skip(7)
                    },
                }
            },
        },
    }
}

impl<'a> Eu4SliceZip<'a> {
    /// Checks inflated data of the entry of this name against the checksum
    /// and size that its record claims.
    pub fn verify_entry(&self, name: Eu4FileEntryName, data: &[u8]) -> (r: Result<(), Eu4Error>)
        ensures
            r is Ok <==> (crc32_of(data@) == self.spec_location(name).spec_crc() && data@.len()
                == self.spec_location(name).spec_uncompressed_size()),
            r matches Err(e) ==> e.spec_kind() is Zip,
    {
        let location = self.location(name);
        let crc = zip_crc32(data);
        match zip_check_claim(location.crc(), location.uncompressed_size(), crc, data.len() as u64) {
            Ok(()) => Ok(()),
            Err(e) => Err(Eu4Error::new(Eu4ErrorKind::Zip(e))),
        }
    }

    /// One entry of the archive, inflated. Only deflate entries can be read.
    pub fn inflate_entry(&self, name: Eu4FileEntryName) -> (r: Result<Vec<u8>, Eu4Error>)
        ensures
            match entry_contents(*self, name) {
                Some(v) => r matches Ok(w) && w@ == v,
                None => r matches Err(e) && entry_failure(*self, name, e.spec_kind()),
            },
    {
        if self.compression() != DEFLATE {
            return Err(Eu4Error::new(Eu4ErrorKind::UnknownCompression));
        }
        let data = match self.entry_data(name) {
            Ok(d) => d,
            Err(e) => return Err(Eu4Error::new(e)),
        };
        match inflate_all(data) {
            Ok(v) => Ok(v),
            Err(e) => Err(Eu4Error::new(Eu4ErrorKind::Io(e))),
        }
    }
}

impl<'a> Eu4SliceFile<'a> {
    /// How the save becomes text. Text is copied after the text header.
    /// Binary is melted after the text header, without looking for a binary
    /// header, which the save had already. A text archive is its meta
    /// entry followed by its gamestate and ai entries without their header
    /// lines. A binary archive melts its meta, gamestate and ai entries in
    /// turn, each checked for the binary header, the checksum skipped but in
    /// the ai entry, which ends the document.
    pub fn melt_plan(&self, options: MeltOptions) -> (r: Result<MeltPlan<'a>, Eu4Error>)
        ensures
            self.spec_kind() matches Eu4SliceFileKind::Text(data) ==> r matches Ok(MeltPlan::Text(v))
                && v@ == melted_header() + data@,
            self.spec_kind() matches Eu4SliceFileKind::Binary(data) ==> r matches Ok(
                MeltPlan::Binary(parts),
            ) && parts@.len() == 1 && parts@[0].data == MeltSource::Bytes(data)
                && parts@[0].options.settings() == (
                options.settings().0,
                options.settings().1,
                options.settings().2,
                false,
            ),
            self.spec_kind() matches Eu4SliceFileKind::Zip(z) ==> if z.spec_is_text() {
                text_zip_plan(*z, r)
            } else {
                r matches Ok(MeltPlan::Binary(parts)) && parts@.len() == 3
                && parts@[0].data == MeltSource::<'a>::Entry(Eu4FileEntryName::Meta)
                && parts@[1].data == MeltSource::<'a>::Entry(Eu4FileEntryName::Gamestate)
                && parts@[2].data == MeltSource::<'a>::Entry(Eu4FileEntryName::Ai)
                && parts@[0].options.settings() == (
                    true,
                    options.settings().1,
                    options.settings().2,
                    options.settings().3,
                ) && parts@[1].options.settings() == (
                    true,
                    options.settings().1,
                    options.settings().2,
                    options.settings().3,
                ) && parts@[2].options.settings() == (
                    false,
                    options.settings().1,
                    options.settings().2,
                    options.settings().3,
                )
            },
    {
        match self.kind() {
            Eu4SliceFileKind::Text(data) => Ok(MeltPlan::Text(with_text_header(data))),
            Eu4SliceFileKind::Binary(data) => {
                let mut parts: Vec<MeltPart<'a>> = Vec::new();
                parts.push(
                    MeltPart { data: MeltSource::Bytes(data), options: options.check_header(false) },
                );
                Ok(MeltPlan::Binary(parts))
            },
            Eu4SliceFileKind::Zip(zip) => {
                if zip.is_text() {
                    let meta = match zip.inflate_entry(Eu4FileEntryName::Meta) {
                        Ok(v) => v,
                        Err(e) => return Err(e),
                    };
                    let gamestate = match zip.inflate_entry(Eu4FileEntryName::Gamestate) {
                        Ok(v) => v,
                        Err(e) => return Err(e),
                    };
                    if gamestate.len() < ENTRY_HEADER_LEN {
                        return Err(Eu4Error::new(Eu4ErrorKind::Io(unexpected_eof())));
                    }
                    let ai = match zip.inflate_entry(Eu4FileEntryName::Ai) {
                        Ok(v) => v,
                        Err(e) => return Err(e),
                    };
                    match join_text_entries(meta.as_slice(), gamestate.as_slice(), ai.as_slice()) {
                        Ok(v) => Ok(MeltPlan::Text(v)),
                        Err(e) => Err(e),
                    }
                } else {
                    let mut parts: Vec<MeltPart<'a>> = Vec::new();
                    parts.push(
                        MeltPart {
                            data: MeltSource::Entry(Eu4FileEntryName::Meta),
                            options: options.skip_checksum(true),
                        },
                    );
                    parts.push(
                        MeltPart {
                            data: MeltSource::Entry(Eu4FileEntryName::Gamestate),
                            options: options.skip_checksum(true),
                        },
                    );
                    parts.push(
                        MeltPart {
                            data: MeltSource::Entry(Eu4FileEntryName::Ai),
                            options: options.skip_checksum(false),
                        },
                    );
                    Ok(MeltPlan::Binary(parts))
                }
            },
        }
    }

    /// The bytes of a part to melt: the bytes it names, or its entry of the
    /// archive, inflated. A save that is no archive has no entries.
    pub fn part_bytes(&self, source: &MeltSource<'a>) -> (r: Result<MeltBytes<'a>, Eu4Error>)
        ensures
            *source matches MeltSource::Bytes(b) ==> r matches Ok(MeltBytes::Borrowed(c)) && c@ == b@,
            *source matches MeltSource::Entry(n) ==> match self.spec_kind() {
                Eu4SliceFileKind::Zip(z) => match entry_contents(*z, n) {
                    Some(v) => r matches Ok(w) && w.spec_bytes() == v,
                    None => r matches Err(e) && entry_failure(*z, n, e.spec_kind()),
                },
                _ => r matches Err(e) && e.spec_kind() == Eu4ErrorKind::MissingFile(n),
            },
    {
        match source {
            MeltSource::Bytes(b) => Ok(MeltBytes::Borrowed(b)),
            MeltSource::Entry(n) => match self.kind() {
                Eu4SliceFileKind::Zip(zip) => match zip.inflate_entry(*n) {
                    Ok(v) => Ok(MeltBytes::Owned(v)),
                    Err(e) => Err(e),
                },
                _ => Err(Eu4Error::new(Eu4ErrorKind::MissingFile(*n))),
            },
        }
    }
}

} // verus!
