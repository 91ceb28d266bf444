use eu4save::deflate::{inflate_exact, ZipInflationError};
use eu4save::encoding::Encoding;
use eu4save::errors::Eu4ErrorKind;
use eu4save::file::{is_text, Eu4File, Eu4FileEntryName, Eu4ParsedText, Eu4SliceFileKind};
use eu4save::melt::MeltOptions;
use eu4save::melt_plan::{MeltPlan, MeltSource};
use std::collections::HashMap;
use std::io::Write;
use eu4save::errors::Eu4Error;

fn deflate(data: &[u8]) -> Vec<u8> {
    let mut e = flate2::write::DeflateEncoder::new(Vec::new(), flate2::Compression::default());
    e.write_all(data).unwrap();
    e.finish().unwrap()
}

fn zip_of(entries: &[(&str, &[u8])]) -> Vec<u8> {
    let mut output = Vec::new();
    {
        let mut archive = rawzip::ZipArchiveWriter::new(&mut output);
        for (name, data) in entries {
            let (mut entry, config) = archive
                .new_file(name)
                .compression_method(rawzip::CompressionMethod::DEFLATE)
                .start()
                .unwrap();
            let encoder = flate2::write::DeflateEncoder::new(&mut entry, flate2::Compression::default());
            let mut writer = config.wrap(encoder);
            writer.write_all(data).unwrap();
            let (encoder, descriptor) = writer.finish().unwrap();
            encoder.finish().unwrap();
            entry.finish(descriptor).unwrap();
        }
        archive.finish().unwrap();
    }
    output
}

fn expect_err(r: Result<eu4save::file::Eu4SliceFile<'_>, eu4save::errors::Eu4Error>) -> eu4save::errors::Eu4Error {
    match r {
        Ok(_) => panic!("an error was expected"),
        Err(e) => e,
    }
}

#[test]
fn text_header_is_recognised() {
    assert_eq!(is_text(b"EU4txt\nabc"), Some(&b"\nabc"[..]));
    assert_eq!(is_text(b"EU4bin\nabc"), None);
    assert_eq!(is_text(b"EU4"), None);
}

#[test]
fn plain_saves_by_header() {
    let text = Eu4File::from_slice(b"EU4txt\nx=1").unwrap();
    assert_eq!(text.encoding(), Encoding::Text);
    assert!(matches!(text.kind(), Eu4SliceFileKind::Text(rest) if *rest == &b"\nx=1"[..]));
    let bin = Eu4File::from_slice(b"EU4bin\x01\x00").unwrap();
    assert_eq!(bin.encoding(), Encoding::Binary);
}

#[test]
fn anything_else_must_be_a_zip() {
    let err = expect_err(Eu4File::from_slice(b"not a save at all"));
    assert!(matches!(err.kind(), Eu4ErrorKind::Zip(_)));
}

#[test]
fn text_archives() {
    let data = zip_of(&[
        ("meta", b"EU4txt\ndate=1444.11.11\n"),
        ("gamestate", b"EU4txt\nplayer=\"ENG\"\n"),
        ("ai", b"EU4txt\nai={ }\n"),
    ]);
    let file = Eu4File::from_slice(&data).unwrap();
    assert_eq!(file.encoding(), Encoding::TextZip);
    match file.melt_plan(MeltOptions::new()).unwrap() {
        MeltPlan::Text(v) => assert_eq!(
            std::str::from_utf8(&v).unwrap(),
            "EU4txt\ndate=1444.11.11\nplayer=\"ENG\"\nai={ }\n"
        ),
        MeltPlan::Binary(_) => panic!("text expected"),
    }
}

#[test]
fn binary_archives() {
    let data = zip_of(&[
        ("ai", b"EU4bin\x01\x00"),
        ("meta", b"EU4bin\x02\x00"),
        ("gamestate", b"EU4bin\x03\x00"),
    ]);
    let file = Eu4File::from_slice(&data).unwrap();
    assert_eq!(file.encoding(), Encoding::BinaryZip);
    match file.melt_plan(MeltOptions::new()).unwrap() {
        MeltPlan::Binary(parts) => {
            assert_eq!(parts.len(), 3);
            assert_eq!(file.part_bytes(&parts[0].data).unwrap().as_slice(), &b"EU4bin\x02\x00"[..]);
            assert_eq!(file.part_bytes(&parts[1].data).unwrap().as_slice(), &b"EU4bin\x03\x00"[..]);
            assert_eq!(file.part_bytes(&parts[2].data).unwrap().as_slice(), &b"EU4bin\x01\x00"[..]);
            assert!(parts[0].options.is_skip_checksum() && parts[1].options.is_skip_checksum());
            assert!(!parts[2].options.is_skip_checksum());
            assert!(parts.iter().all(|p| p.options.is_check_header()));
        }
        MeltPlan::Text(_) => panic!("binary expected"),
    }
}

#[test]
fn archives_need_all_three_entries() {
    let data = zip_of(&[("meta", b"EU4txt\n"), ("gamestate", b"EU4txt\n")]);
    let err = expect_err(Eu4File::from_slice(&data));
    assert!(matches!(err.kind(), Eu4ErrorKind::MissingFile(Eu4FileEntryName::Ai)));
    let data = zip_of(&[("meta", b"EU4txt\n"), ("ai", b"EU4txt\n")]);
    let err = expect_err(Eu4File::from_slice(&data));
    assert!(matches!(err.kind(), Eu4ErrorKind::MissingFile(Eu4FileEntryName::Gamestate)));
    let data = zip_of(&[("ai", b"EU4txt\n")]);
    let err = expect_err(Eu4File::from_slice(&data));
    assert!(matches!(err.kind(), Eu4ErrorKind::MissingFile(Eu4FileEntryName::Meta)));
}

#[test]
fn archive_entries_need_a_known_header() {
    let data = zip_of(&[("meta", b"SOMETHING"), ("gamestate", b"EU4txt\n"), ("ai", b"EU4txt\n")]);
    let err = expect_err(Eu4File::from_slice(&data));
    assert!(matches!(err.kind(), Eu4ErrorKind::UnknownHeader));
}

#[test]
fn inflating_into_an_exact_buffer() {
    let raw = deflate(b"hello world");
    let mut out = [0u8; 11];
    assert!(inflate_exact(&raw, &mut out).is_ok());
    assert_eq!(&out, b"hello world");

    let mut small = [0u8; 5];
    assert!(inflate_exact(&raw, &mut small).is_ok());
    assert_eq!(&small, b"hello");

    let mut big = [0u8; 20];
    match inflate_exact(&raw, &mut big) {
        Err(ZipInflationError::EarlyEof { written }) => assert_eq!(written, 11),
        other => panic!("unexpected {:?}", other),
    }

    let mut out = [0u8; 4];
    assert!(matches!(inflate_exact(&[0xff, 0xff, 0xff], &mut out), Err(ZipInflationError::BadData { .. })));
}

struct TestFlavor;

impl jomini::Encoding for TestFlavor {
    fn decode<'a>(&self, data: &'a [u8]) -> std::borrow::Cow<'a, str> {
        String::from_utf8_lossy(data)
    }
}

impl jomini::binary::BinaryFlavor for TestFlavor {
    fn visit_f32(&self, data: [u8; 4]) -> f32 {
        f32::from_le_bytes(data)
    }

    fn visit_f64(&self, data: [u8; 8]) -> f64 {
        f64::from_le_bytes(data)
    }
}

#[test]
fn unknown_tokens_from_the_deserializer() {
    let data = [0x99, 0x99, 0x01, 0x00, 0x0c, 0x00, 1, 0, 0, 0];
    let resolver: HashMap<u16, String> = HashMap::new();
    let mut builder = jomini::binary::BinaryDeserializer::builder_flavor(TestFlavor);
    builder.on_failed_resolve(jomini::binary::FailedResolveStrategy::Error);
    let r: Result<HashMap<String, i32>, jomini::Error> = builder.deserialize_slice(&data, &resolver);
    let err = Eu4Error::from(r.unwrap_err());
    assert!(matches!(err.kind(), Eu4ErrorKind::UnknownToken { token_id: 0x9999 }));
}

#[test]
fn entry_names() {
    assert_eq!(Eu4FileEntryName::Meta.as_str(), "meta");
    assert_eq!(Eu4FileEntryName::Gamestate.as_str(), "gamestate");
    assert_eq!(Eu4FileEntryName::Ai.as_str(), "ai");
}

#[test]
fn entry_data_is_the_compressed_entry() {
    let data = zip_of(&[
        ("meta", b"EU4txt\ndate=1444.11.11\n"),
        ("gamestate", b"EU4txt\nplayer=\"ENG\"\n"),
        ("ai", b"EU4txt\nai={ }\n"),
    ]);
    let file = Eu4File::from_slice(&data).unwrap();
    let zip = match file.kind() {
        Eu4SliceFileKind::Zip(z) => z,
        _ => panic!("a zip archive was expected"),
    };
    let raw = zip.entry_data(Eu4FileEntryName::Gamestate).unwrap();
    assert_ne!(raw.len(), data.len());
    let mut out = Vec::new();
    std::io::Read::read_to_end(&mut flate2::read::DeflateDecoder::new(raw), &mut out).unwrap();
    assert_eq!(out, b"EU4txt\nplayer=\"ENG\"\n".to_vec());
}

#[test]
fn parsed_text_needs_the_text_header() {
    let parsed = Eu4ParsedText::from_slice(b"EU4txt\ndate=1444.11.11\nplayer=\"ENG\"\n");
    assert!(parsed.is_ok());
    let tokens = parsed.ok().unwrap().tape().tokens().len();
    assert_eq!(tokens, 4);
    let err = match Eu4ParsedText::from_slice(b"EU4bin\x01\x00") {
        Ok(_) => panic!("an error was expected"),
        Err(e) => e,
    };
    assert!(matches!(err.kind(), Eu4ErrorKind::UnknownHeader));
}

#[test]
fn parsed_text_reports_parse_errors() {
    assert!(Eu4ParsedText::from_raw(b"a=1 b={ c=2 }").is_ok());
    let err = match Eu4ParsedText::from_raw(b"a{b=}") {
        Ok(_) => panic!("an error was expected"),
        Err(e) => e,
    };
    assert!(matches!(err.kind(), Eu4ErrorKind::Parse(_)));
}

#[test]
fn text_archive_with_a_short_gamestate_fails() {
    let data = zip_of(&[
        ("meta", b"EU4txt\ndate=1444.11.11\n"),
        ("gamestate", b"EU4"),
        ("ai", b"EU4txt\nai={ }\n"),
    ]);
    let file = Eu4File::from_slice(&data).unwrap();
    match file.melt_plan(MeltOptions::new()) {
        Ok(_) => panic!("an error was expected"),
        Err(e) => assert!(matches!(e.kind(), Eu4ErrorKind::Io(_))),
    }
}

#[test]
fn entries_of_a_save_that_is_no_archive() {
    let file = Eu4File::from_slice(b"EU4bin\x01\x00").unwrap();
    let err = match file.part_bytes(&MeltSource::Entry(Eu4FileEntryName::Ai)) {
        Ok(_) => panic!("an error was expected"),
        Err(e) => e,
    };
    assert!(matches!(err.kind(), Eu4ErrorKind::MissingFile(Eu4FileEntryName::Ai)));
}

#[test]
fn entries_are_checked_against_their_claims() {
    let data = zip_of(&[
        ("meta", b"EU4txt\ndate=1444.11.11\n"),
        ("gamestate", b"EU4txt\nplayer=\"ENG\"\n"),
        ("ai", b"EU4txt\nai={ }\n"),
    ]);
    let file = Eu4File::from_slice(&data).unwrap();
    let zip = match file.kind() {
        Eu4SliceFileKind::Zip(z) => z,
        _ => panic!("a zip archive was expected"),
    };
    let ai = zip.inflate_entry(Eu4FileEntryName::Ai).unwrap();
    assert!(zip.verify_entry(Eu4FileEntryName::Ai, &ai).is_ok());
    assert!(zip.verify_entry(Eu4FileEntryName::Gamestate, &ai).is_err());
    let mut changed = ai.clone();
    changed[7] = b'b';
    let err = match zip.verify_entry(Eu4FileEntryName::Ai, &changed) {
        Ok(()) => panic!("an error was expected"),
        Err(e) => e,
    };
    assert!(matches!(err.kind(), Eu4ErrorKind::Zip(_)));
}
