use eu4save::melt::FailedResolveStrategy;
use eu4save::flavor::resolve_name;
use eu4save::country_tag::CountryTag;
use eu4save::date::Eu4Date;
use eu4save::flavor::{cp1252_to_ucs2, decode_eu4_escaped_text, escaped_wide_chars, eu4_scalar, Eu4Flavor};
use eu4save::keys::{
    country_event_key, country_history_key, province_event_key, province_history_key,
    war_event_key, war_history_key, CountryEventKey, CountryHistoryKey, ProvinceEventKey,
    ProvinceHistoryKey, WarEventKey, WarHistoryKey,
};
use eu4save::lenient::{empty_string_is_none, overflow_byte_triple, overflow_bytes};
use eu4save::models::{CountryEvent, Monarch, ObjId};
use eu4save::query::{NationEvent, NationEventKind, NationEvents};
use eu4save::tag_resolver::TagResolver;

fn tag(s: &str) -> CountryTag {
    CountryTag::new(String::from(s))
}

fn date(y: i16, m: u8, d: u8) -> Eu4Date {
    Eu4Date::from_ymd_opt(y, m, d).unwrap()
}

#[test]
fn tag_resolver_follows_tyrone_to_great_britain() {
    let nations = vec![
        NationEvents {
            initial: tag("TYR"),
            latest: tag("GBR"),
            stored: tag("GBR"),
            events: vec![
                NationEvent { date: date(1500, 1, 1), kind: NationEventKind::TagSwitch(tag("IRE")) },
                NationEvent { date: date(1600, 1, 1), kind: NationEventKind::TagSwitch(tag("GBR")) },
            ],
        },
        NationEvents { initial: tag("ENG"), latest: tag("ENG"), stored: tag("ENG"), events: Vec::new() },
        NationEvents {
            initial: tag("FRA"),
            latest: tag("FRA"),
            stored: tag("FRA"),
            events: vec![NationEvent { date: date(1700, 1, 1), kind: NationEventKind::Annexed }],
        },
    ];
    let r = TagResolver::create(&nations);
    assert_eq!(r.resolve(&tag("TYR"), date(1450, 1, 1)).as_str(), "GBR");
    assert_eq!(r.resolve(&tag("IRE"), date(1550, 1, 1)).as_str(), "GBR");
    assert_eq!(r.resolve(&tag("GBR"), date(1650, 1, 1)).as_str(), "GBR");
    assert_eq!(r.resolve(&tag("ENG"), date(1650, 1, 1)).as_str(), "ENG");
    assert_eq!(r.resolve(&tag("XYZ"), date(1650, 1, 1)).as_str(), "XYZ");
}

#[test]
fn tag_resolver_prefers_the_latest_switch_before_the_date() {
    let nations = vec![
        NationEvents {
            initial: tag("AAA"),
            latest: tag("AAA"),
            stored: tag("AAA"),
            events: vec![NationEvent { date: date(1600, 1, 1), kind: NationEventKind::TagSwitch(tag("XYZ")) }],
        },
        NationEvents {
            initial: tag("BBB"),
            latest: tag("BBB"),
            stored: tag("BBB"),
            events: vec![NationEvent { date: date(1500, 1, 1), kind: NationEventKind::TagSwitch(tag("XYZ")) }],
        },
    ];
    // Nations still under the tag they started as have no switches recorded.
    let r = TagResolver::create(&nations);
    assert_eq!(r.resolve(&tag("XYZ"), date(1700, 1, 1)).as_str(), "XYZ");

    let nations = vec![
        NationEvents {
            initial: tag("AAA"),
            latest: tag("XYZ"),
            stored: tag("S1"),
            events: vec![NationEvent { date: date(1600, 1, 1), kind: NationEventKind::TagSwitch(tag("XYZ")) }],
        },
        NationEvents {
            initial: tag("BBB"),
            latest: tag("XYZ"),
            stored: tag("S2"),
            events: vec![NationEvent { date: date(1500, 1, 1), kind: NationEventKind::TagSwitch(tag("XYZ")) }],
        },
    ];
    let r = TagResolver::create(&nations);
    assert_eq!(r.resolve(&tag("XYZ"), date(1700, 1, 1)).as_str(), "S1");
    assert_eq!(r.resolve(&tag("XYZ"), date(1550, 1, 1)).as_str(), "S2");
    // On the day of a switch the switch has not happened yet.
    assert_eq!(r.resolve(&tag("XYZ"), date(1500, 1, 1)).as_str(), "XYZ");
}

#[test]
fn history_keys() {
    assert_eq!(country_history_key("government"), CountryHistoryKey::Government);
    assert_eq!(country_history_key("add_government_reform"), CountryHistoryKey::AddGovernmentReform);
    match country_history_key("1444.11.11") {
        CountryHistoryKey::Date(d) => assert!(d.same_day(&date(1444, 11, 11))),
        other => panic!("unexpected {:?}", other),
    }
    assert_eq!(country_history_key("something"), CountryHistoryKey::Other);
    assert_eq!(country_event_key("changed_tag_from"), CountryEventKey::ChangedTagFrom);
    assert_eq!(country_event_key("monarch_heir"), CountryEventKey::MonarchHeir);
    assert_eq!(country_event_key("religion"), CountryEventKey::Religion);
    assert_eq!(country_event_key("culture"), CountryEventKey::Other);
    assert_eq!(province_history_key("owner"), ProvinceHistoryKey::Owner);
    assert!(matches!(province_history_key("1486.6.3"), ProvinceHistoryKey::Date(_)));
    assert_eq!(province_history_key("marketplace"), ProvinceHistoryKey::Other);
    assert_eq!(province_event_key("controller"), ProvinceEventKey::Controller);
    assert_eq!(province_event_key("fort_15th"), ProvinceEventKey::Other);
    assert_eq!(province_event_key("religion"), ProvinceEventKey::Religion);
    assert_eq!(war_history_key("war_goal"), WarHistoryKey::WarGoal);
    assert_eq!(war_history_key("nonsense"), WarHistoryKey::Other);
    assert_eq!(war_event_key("rem_defender"), WarEventKey::RemoveDefender);
    assert_eq!(war_event_key("peace"), WarEventKey::Other);
}

#[test]
fn bytes_wrap_around() {
    assert_eq!(overflow_bytes(&[0, 255, 256, 300, 65535]), vec![0, 255, 0, 44, 255]);
    assert_eq!(overflow_byte_triple(&[256, 10]), [0, 10, 0]);
    assert_eq!(overflow_byte_triple(&[1, 2, 3]), [1, 2, 3]);
    assert_eq!(overflow_byte_triple(&[]), [0, 0, 0]);
}

#[test]
fn empty_strings_are_nothing() {
    assert_eq!(empty_string_is_none(String::new()), None);
    assert_eq!(empty_string_is_none(String::from("Hose")), Some(String::from("Hose")));
}

#[test]
fn windows_1252_and_escapes() {
    assert_eq!(cp1252_to_ucs2(0x80), 0x20AC);
    assert_eq!(cp1252_to_ucs2(0x9F), 0x0178);
    assert_eq!(cp1252_to_ucs2(b'a'), 0x61);
    assert_eq!(decode_eu4_escaped_text(b"ab"), "ab");
    assert_eq!(decode_eu4_escaped_text(&[0x10, 0x30, 0x04]), "\u{430}");
    assert_eq!(decode_eu4_escaped_text(&[0x12, 0x10, 0x00]), "\u{910}");
    assert_eq!(decode_eu4_escaped_text(&[0x11, 0x3e, 0x04]), "\u{430}");
    assert_eq!(decode_eu4_escaped_text(&[0x10, 0x30]), "\u{2026}0");
    assert_eq!(escaped_wide_chars(&[0x80, 0x10, 0x30, 0x04]), vec![0x20AC, 0x0430]);
    assert_eq!(eu4_scalar(b"Doge of Venice (Taran)"), "Doge of Venice (Taran)");
    assert_eq!(eu4_scalar(&[0x80]), "\u{20ac}");
    assert_eq!(eu4_scalar(&[0x10, 0x30, 0x04]), "\u{430}");
    assert_eq!(Eu4Flavor::new().decode(&[0xe9]), "\u{e9}");
}

#[test]
fn monarch_events() {
    let m = Monarch {
        id: ObjId { id: 1, _type: 48 },
        name: String::from("Henry"),
        country: tag("ENG"),
        dip: 3,
        adm: 2,
        mil: 1,
        regent: false,
        culture: None,
        religion: None,
        birth_date: date(1420, 1, 1),
        personalities: Vec::new(),
        leader_id: None,
        leader: None,
    };
    assert_eq!(CountryEvent::Heir(m.clone()).as_monarch().unwrap().name, "Henry");
    assert!(CountryEvent::Capital(236).as_monarch().is_none());
}

#[test]
fn names_of_field_tokens() {
    assert_eq!(resolve_name(0x284d, Some("date"), FailedResolveStrategy::Error), Ok(String::from("date")));
    assert_eq!(resolve_name(0x284d, None, FailedResolveStrategy::Stringify), Ok(String::from("0x284d")));
    assert_eq!(resolve_name(0x000f, None, FailedResolveStrategy::Stringify), Ok(String::from("0xf")));
    assert_eq!(
        resolve_name(0xffff, None, FailedResolveStrategy::Error),
        Err(String::from("unknown field token 0xffff"))
    );
    assert_eq!(
        resolve_name(0xffff, None, FailedResolveStrategy::Ignore),
        Ok(String::from("__internal_identifier_ignore"))
    );
}

#[test]
fn windows1252_decoding_trims_and_drops_backslashes() {
    assert_eq!(eu4_scalar(br#"Captain \"Joe\" Rogers"#), r#"Captain "Joe" Rogers"#);
    assert_eq!(eu4_scalar(b"1444.11.11\n\t "), "1444.11.11");
    assert_eq!(eu4_scalar(b"hi\x81\x8a\xff"), "hi\u{81}\u{160}\u{ff}");
}

#[test]
fn flavor_decodes_escape_bytes_as_windows1252() {
    let name = [0x10, 0x28, 0x84, 0x10, 0x62, 0x53, 0x10, 0x50, 0x4f];
    assert_eq!(Eu4Flavor::new().decode(&name).as_bytes(), b"\x10(\xe2\x80\x9e\x10bS\x10PO");
}
