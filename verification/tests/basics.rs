use eu4save::tokens::parse_token_line;
use eu4save::country_tag::CountryTag;
use eu4save::date::{eu4_start_date, Eu4Date};
use eu4save::dlc::dlc_id;
use eu4save::encoding::Encoding;
use eu4save::errors::{Eu4Error, Eu4ErrorKind};
use eu4save::province_id::ProvinceId;
use eu4save::tokens::EnvTokens;

#[test]
fn encoding_names_and_kinds() {
    assert_eq!(Encoding::Text.as_str(), "text");
    assert_eq!(Encoding::TextZip.as_str(), "textzip");
    assert_eq!(Encoding::BinaryZip.as_str(), "binzip");
    assert_eq!(Encoding::Binary.as_str(), "binary");
    assert!(Encoding::Binary.is_binary() && !Encoding::Binary.is_text() && !Encoding::Binary.is_zip());
    assert!(Encoding::BinaryZip.is_binary() && Encoding::BinaryZip.is_zip());
    assert!(Encoding::Text.is_text() && !Encoding::Text.is_zip());
    assert!(Encoding::TextZip.is_text() && Encoding::TextZip.is_zip());
}

#[test]
fn start_date_is_1444_11_11() {
    let d = eu4_start_date();
    assert_eq!((d.year(), d.month(), d.day()), (1444, 11, 11));
}

#[test]
fn dates_from_parts() {
    let d = Eu4Date::from_ymd_opt(1804, 12, 9).unwrap();
    assert_eq!((d.year(), d.month(), d.day()), (1804, 12, 9));
    assert!(Eu4Date::from_ymd_opt(1444, 2, 29).is_none());
    assert!(Eu4Date::from_ymd_opt(1444, 13, 1).is_none());
    assert!(Eu4Date::from_ymd_opt(1444, 4, 31).is_none());
    assert!(Eu4Date::from_ymd_opt(1444, 0, 1).is_none());
}

#[test]
fn dates_from_binary() {
    let d = Eu4Date::from_binary(59611248).unwrap();
    assert_eq!((d.year(), d.month(), d.day()), (1804, 12, 9));
    let h = Eu4Date::from_binary_heuristic(59611248).unwrap();
    assert!(h.same_day(&d));
    // 1444.11.11: (6444 * 365 + 304 + 10) days of 24 hours after year -5000.
    let s = Eu4Date::from_binary(56456976).unwrap();
    assert!(s.same_day(&eu4_start_date()));
    // An hour component is refused by the heuristic but not by the plain decoding.
    assert!(Eu4Date::from_binary(56456977).is_some());
    assert!(Eu4Date::from_binary_heuristic(56456977).is_none());
}

#[test]
fn dates_from_text() {
    let d = Eu4Date::parse("1444.11.11").unwrap();
    assert!(d.same_day(&eu4_start_date()));
    let e = Eu4Date::parse("1486.6.3").unwrap();
    assert_eq!((e.year(), e.month(), e.day()), (1486, 6, 3));
    assert!(Eu4Date::parse("marketplace").is_none());
    assert!(Eu4Date::parse("").is_none());
}

#[test]
fn date_order() {
    let a = Eu4Date::from_ymd_opt(1444, 11, 11).unwrap();
    let b = Eu4Date::from_ymd_opt(1444, 11, 12).unwrap();
    let c = Eu4Date::from_ymd_opt(1445, 1, 1).unwrap();
    assert!(a.is_before(&b) && b.is_before(&c) && a.is_before(&c));
    assert!(!b.is_before(&a) && !a.is_before(&a));
    assert!(a.later(c).same_day(&c));
    assert!(c.later(a).same_day(&c));
}

#[test]
fn country_tags() {
    let t = CountryTag::new(String::from("ENG"));
    assert_eq!(t.as_str(), "ENG");
    assert_eq!(t.to_string(), "ENG");
    assert!(t.same_as(&t.duplicate()));
    assert!(!t.same_as(&CountryTag::new(String::from("FRA"))));
    assert_eq!(CountryTag::from("BHA").as_str(), "BHA");
    assert_eq!(CountryTag::from(String::from("KND")).into_string(), "KND");
}

#[test]
fn long_country_tags_are_kept() {
    let t = CountryTag::new(String::from("ABCDEFGH"));
    assert_eq!(t.as_str(), "ABCDEFGH");
}

#[test]
fn province_ids_drop_the_sign() {
    assert_eq!(ProvinceId::new(236).as_i32(), 236);
    assert_eq!(ProvinceId::new(-236).as_i32(), 236);
    assert_eq!(ProvinceId::default().as_i32(), 0);
}

#[test]
fn dlc_ids() {
    assert_eq!(dlc_id("Conquest of Paradise"), Some(10));
    assert_eq!(dlc_id("Wealth of Nations"), Some(18));
    assert_eq!(dlc_id("Res Publica"), Some(21));
    assert_eq!(dlc_id("Art of War"), Some(27));
    assert_eq!(dlc_id("El Dorado"), Some(33));
    assert_eq!(dlc_id("Not a dlc"), None);
}

#[test]
fn errors_keep_their_kind() {
    let e = Eu4Error::new(Eu4ErrorKind::UnknownToken { token_id: 0xffff });
    assert!(matches!(e.kind(), Eu4ErrorKind::UnknownToken { token_id: 0xffff }));
    let f: Eu4Error = Eu4ErrorKind::InvalidDate(5).into();
    assert!(matches!(f.into_kind(), Eu4ErrorKind::InvalidDate(5)));
}

#[test]
fn token_names() {
    let mut tokens = EnvTokens::new();
    assert_eq!(tokens.resolve(0x284d), None);
    tokens.push(0x284d, String::from("date"));
    tokens.push(0x2a38, String::from("player"));
    tokens.push(0x284d, String::from("later"));
    assert_eq!(tokens.resolve(0x284d), Some("date"));
    assert_eq!(tokens.resolve(0x2a38), Some("player"));
    assert_eq!(tokens.resolve(0x3589), None);
}

#[test]
fn token_file_lines() {
    assert_eq!(parse_token_line("0x284d date\n"), Some((0x284d, String::from("date"))));
    assert_eq!(parse_token_line("10307 player"), Some((10307, String::from("player"))));
    assert_eq!(parse_token_line("0x2a38   is_ironman \r\n"), Some((0x2a38, String::from("is_ironman"))));
    assert_eq!(parse_token_line("0xFFFF last"), Some((0xffff, String::from("last"))));
    assert_eq!(parse_token_line("0x10000 too_big"), None);
    assert_eq!(parse_token_line("99999999999999999999 too_big"), None);
    assert_eq!(parse_token_line("date"), None);
    assert_eq!(parse_token_line("0xzz date"), None);
    assert_eq!(parse_token_line(" date"), None);
    let mut tokens = EnvTokens::new();
    assert!(tokens.push_line("0x284d date"));
    assert!(!tokens.push_line("no token here"));
    assert_eq!(tokens.resolve(0x284d), Some("date"));
}

#[test]
fn token_file_from_the_readme() {
    let mut tokens = EnvTokens::new();
    for line in "0xffff my_test_token\n0xeeee my_test_token2\n".split_inclusive('\n') {
        assert!(tokens.push_line(line));
    }
    assert_eq!(tokens.resolve(0xffff), Some("my_test_token"));
    assert_eq!(tokens.resolve(0xeeee), Some("my_test_token2"));
}

#[test]
fn size_of_error_test() {
    assert_eq!(std::mem::size_of::<Eu4Error>(), 8);
}

#[test]
fn custom_errors_carry_their_message() {
    let e = Eu4Error::custom(String::from("unexpected sequence!"));
    assert!(matches!(e.kind(), Eu4ErrorKind::DeserializeImpl { msg } if msg == "unexpected sequence!"));
}
