use eu4save::melt::{skip_next, SkipNext};
use eu4save::file::Eu4File;
use eu4save::melt::{
    header_accepted, FailedResolveStrategy, MeltAction, MeltOptions, MeltState, MeltToken,
    MeltedDocument, QuoteKind, Quoter,
};
use eu4save::melt_plan::{join_text_entries, with_text_header, MeltPlan};

#[test]
fn quoter_follows_containers() {
    let mut q = Quoter::new();
    assert_eq!(q.take_scalar(), QuoteKind::Inactive);
    q.queue(QuoteKind::UnquoteAll);
    q.push();
    assert_eq!(q.take_scalar(), QuoteKind::UnquoteAll);
    // A container inside takes no mode from the one around it.
    q.push();
    assert_eq!(q.take_scalar(), QuoteKind::Inactive);
    q.pop();
    assert_eq!(q.take_scalar(), QuoteKind::UnquoteAll);
    q.pop();
    assert_eq!(q.take_scalar(), QuoteKind::Inactive);
    q.queue(QuoteKind::ForceQuote);
    q.clear_queued();
    assert_eq!(q.take_scalar(), QuoteKind::Inactive);
}

#[test]
fn options_builders() {
    let o = MeltOptions::new();
    assert!(!o.is_skip_checksum() && !o.is_verbatim() && o.is_check_header());
    assert_eq!(o.failed_resolve_strategy(), FailedResolveStrategy::Ignore);
    let p = o.skip_checksum(true).verbatim(true).check_header(false).on_failed_resolve(FailedResolveStrategy::Error);
    assert!(p.is_skip_checksum() && p.is_verbatim() && !p.is_check_header());
    assert_eq!(p.failed_resolve_strategy(), FailedResolveStrategy::Error);
    let d = MeltOptions::default();
    assert!(!d.is_skip_checksum() && d.is_check_header());
}

#[test]
fn header_check() {
    assert!(header_accepted(&MeltOptions::new(), b"EU4bin"));
    assert!(!header_accepted(&MeltOptions::new(), b"EU4txt"));
    assert!(header_accepted(&MeltOptions::new().check_header(false), b"EU4txt"));
}

// The binary save `date=1804.12.9 is_ironman=yes player="BHA"`, as a melter
// decides it: the ironman flag is skipped, the date written as a date and
// the player quoted.
#[test]
fn melt_steps_skip_ironman() {
    let mut s = MeltState::new(MeltOptions::new().on_failed_resolve(FailedResolveStrategy::Error));
    assert_eq!(s.step(MeltToken::Id(0x284d, Some("date")), 0, true).unwrap(), MeltAction::WriteField);
    assert_eq!(s.step(MeltToken::Equal, 0, false).unwrap(), MeltAction::WriteEqual);
    match s.step(MeltToken::I32(59611248), 0, false).unwrap() {
        MeltAction::WriteDate(d) => assert_eq!((d.year(), d.month(), d.day()), (1804, 12, 9)),
        other => panic!("unexpected {:?}", other),
    }
    assert_eq!(s.step(MeltToken::Id(0x3589, Some("is_ironman")), 0, true).unwrap(), MeltAction::SkipValue);
    assert_eq!(s.step(MeltToken::Id(0x2a38, Some("player")), 0, true).unwrap(), MeltAction::WriteField);
    assert_eq!(s.step(MeltToken::Equal, 0, false).unwrap(), MeltAction::WriteEqual);
    assert_eq!(s.step(MeltToken::Quoted, 0, false).unwrap(), MeltAction::WriteQuoted);
    assert!(s.into_document().unknown_tokens().is_empty());
}

#[test]
fn verbatim_keeps_ironman_and_checksum_is_skipped_on_request() {
    let mut s = MeltState::new(MeltOptions::new().verbatim(true));
    assert_eq!(s.step(MeltToken::Id(0x3589, Some("is_ironman")), 0, true).unwrap(), MeltAction::WriteField);
    let mut t = MeltState::new(MeltOptions::new().skip_checksum(true));
    assert_eq!(t.step(MeltToken::Id(0x179b, Some("checksum")), 0, true).unwrap(), MeltAction::SkipValue);
    let mut u = MeltState::new(MeltOptions::new());
    assert_eq!(u.step(MeltToken::Id(0x179b, Some("checksum")), 0, true).unwrap(), MeltAction::WriteField);
}

// `flags={ schools_initiated=1444.11.11 }`: strings under `flags` are
// written without quotes.
#[test]
fn melt_steps_unquoted_flags() {
    let mut s = MeltState::new(MeltOptions::new());
    assert_eq!(s.step(MeltToken::Id(0x29cc, Some("flags")), 0, true).unwrap(), MeltAction::WriteField);
    assert_eq!(s.step(MeltToken::Equal, 0, false).unwrap(), MeltAction::WriteEqual);
    assert_eq!(s.step(MeltToken::Open, 0, false).unwrap(), MeltAction::WriteArrayStart);
    assert_eq!(s.step(MeltToken::Quoted, 1, true).unwrap(), MeltAction::WriteUnquoted);
    assert_eq!(s.step(MeltToken::Equal, 1, false).unwrap(), MeltAction::WriteEqual);
    assert_eq!(s.step(MeltToken::Quoted, 1, false).unwrap(), MeltAction::WriteUnquoted);
    assert_eq!(s.step(MeltToken::Close, 1, true).unwrap(), MeltAction::WriteEnd);
    assert_eq!(s.step(MeltToken::Quoted, 0, false).unwrap(), MeltAction::WriteQuoted);
}

#[test]
fn unknown_keys_are_skipped_when_ignored() {
    let mut s = MeltState::new(MeltOptions::new().on_failed_resolve(FailedResolveStrategy::Ignore));
    assert_eq!(s.step(MeltToken::Id(0xffff, None), 0, true).unwrap(), MeltAction::SkipValue);
    assert!(s.into_document().unknown_tokens().is_empty());
}

#[test]
fn unknown_values_are_written_and_recorded() {
    let mut s = MeltState::new(MeltOptions::new().on_failed_resolve(FailedResolveStrategy::Ignore));
    assert_eq!(s.step(MeltToken::Id(0x284d, Some("date")), 0, true).unwrap(), MeltAction::WriteField);
    assert_eq!(s.step(MeltToken::Equal, 0, false).unwrap(), MeltAction::WriteEqual);
    assert_eq!(s.step(MeltToken::Id(0xffff, None), 0, false).unwrap(), MeltAction::WriteUnknown(0xffff));
    let doc = s.into_document();
    assert!(doc.unknown_tokens().contains(&0xffff));
    assert_eq!(doc.unknown_tokens().len(), 1);
}

#[test]
fn unknown_tokens_fail_on_request() {
    let mut s = MeltState::new(MeltOptions::new().on_failed_resolve(FailedResolveStrategy::Error));
    let r = s.step(MeltToken::Id(0xffff, None), 0, true);
    assert!(matches!(r, Err(eu4save::errors::Eu4ErrorKind::UnknownToken { token_id: 0xffff })));
}

#[test]
fn numbers_after_seed_and_dates_after_date_built() {
    let mut s = MeltState::new(MeltOptions::new());
    s.step(MeltToken::Id(0x1111, Some("seed")), 0, true).unwrap();
    assert_eq!(s.step(MeltToken::I32(59611248), 0, false).unwrap(), MeltAction::WriteScalar);
    assert!(matches!(s.step(MeltToken::I32(59611248), 0, false).unwrap(), MeltAction::WriteDate(_)));
    s.step(MeltToken::Id(0x1112, Some("date_built")), 0, true).unwrap();
    assert!(matches!(s.step(MeltToken::I32(56456976), 0, false).unwrap(), MeltAction::WriteDate(_)));
    assert_eq!(s.step(MeltToken::F32, 0, false).unwrap(), MeltAction::WriteNumber(3));
    assert_eq!(s.step(MeltToken::F64, 0, false).unwrap(), MeltAction::WriteNumber(5));
    s.step(MeltToken::Id(0x1113, Some("ai")), 0, true).unwrap();
    assert_eq!(s.step(MeltToken::F32, 0, false).unwrap(), MeltAction::WriteNumber(6));
}

#[test]
fn continuing_keeps_the_unknown_tokens() {
    let mut s = MeltState::new(MeltOptions::new());
    s.step(MeltToken::Id(0xfffe, None), 0, false).unwrap();
    let doc = s.into_document();
    let mut t = MeltState::continuing(MeltOptions::new(), doc);
    t.step(MeltToken::Id(0xfffd, None), 0, false).unwrap();
    let doc = t.into_document();
    assert!(doc.unknown_tokens().contains(&0xfffe) && doc.unknown_tokens().contains(&0xfffd));
    assert!(MeltedDocument::new().unknown_tokens().is_empty());
}

#[test]
fn text_saves_are_copied_after_the_header() {
    let data = b"EU4txt\ndate=1444.11.11";
    let file = Eu4File::from_slice(&data[..]).unwrap();
    match file.melt_plan(MeltOptions::new()).unwrap() {
        MeltPlan::Text(v) => assert_eq!(v.as_slice(), &b"EU4txt\n\ndate=1444.11.11"[..]),
        MeltPlan::Binary(_) => panic!("text expected"),
    }
    assert_eq!(with_text_header(b"a=b").as_slice(), &b"EU4txt\na=b"[..]);
}

#[test]
fn binary_saves_are_melted_without_the_header_check() {
    let data = [0x45, 0x55, 0x34, 0x62, 0x69, 0x6e, 0x4d, 0x28, 0x01, 0x00];
    let file = Eu4File::from_slice(&data).unwrap();
    match file.melt_plan(MeltOptions::new().skip_checksum(true)).unwrap() {
        MeltPlan::Binary(parts) => {
            assert_eq!(parts.len(), 1);
            assert_eq!(file.part_bytes(&parts[0].data).unwrap().as_slice(), &data[6..]);
            assert!(!parts[0].options.is_check_header());
            assert!(parts[0].options.is_skip_checksum());
        }
        MeltPlan::Text(_) => panic!("binary expected"),
    }
}

#[test]
fn text_archive_entries_are_joined() {
    let joined = join_text_entries(b"EU4txt\nmeta", b"EU4txt\ngame", b"EU4txt\nai").unwrap();
    assert_eq!(joined.as_slice(), &b"EU4txt\nmetagameai"[..]);
    let short = join_text_entries(b"EU4txt\n", b"EU4", b"EU4txt\n");
    assert!(matches!(short.unwrap_err().kind(), eu4save::errors::Eu4ErrorKind::Io(_)));
}

#[test]
fn skipping_reads_past_one_equal_sign() {
    assert_eq!(skip_next(MeltToken::Equal, false), SkipNext::ReadAnother);
    assert_eq!(skip_next(MeltToken::Open, true), SkipNext::SkipContainer);
    assert_eq!(skip_next(MeltToken::Bool, true), SkipNext::Done);
    assert_eq!(skip_next(MeltToken::Equal, true), SkipNext::Done);
}
