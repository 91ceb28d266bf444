use eu4save::country_tag::CountryTag;
use eu4save::date::Eu4Date;
use eu4save::history::{ProvinceChange, ProvinceOwnership};
use eu4save::models::{Country, CountryColors, CountryEvent, CountryEvents, CountryHistory, LedgerData, LedgerDatum};
use eu4save::query::{find_index, CountryQuery, Query, QuerySave, BuildingConstruction};

fn tag(s: &str) -> CountryTag {
    CountryTag::new(String::from(s))
}

fn date(y: i16, m: u8, d: u8) -> Eu4Date {
    Eu4Date::from_ymd_opt(y, m, d).unwrap()
}

fn country(was_player: bool, human: bool, cities: i32, great: bool, prev: &[&str], events: Vec<(Eu4Date, CountryEvents)>) -> Country {
    Country {
        human,
        was_player,
        is_great_power: great,
        history: CountryHistory {
            government: None,
            technology_group: None,
            primary_culture: None,
            add_government_reform: Vec::new(),
            events,
        },
        previous_country_tags: prev.iter().map(|x| tag(x)).collect(),
        colors: CountryColors { revolutionary_colors: None, map_color: vec![1, 2, 3], country_color: vec![80, 165, 10] },
        num_of_cities: cities,
        adm_spent_indexed: vec![(0, 5), (8, 2), (45, 3), (38, 1), (50, 7), (51, 1)],
        dip_spent_indexed: Vec::new(),
        mil_spent_indexed: vec![(1, 4)],
    }
}

fn ledger(entries: &[(&str, &[(u16, i32)])]) -> LedgerData {
    LedgerData {
        ledger: entries.iter().map(|(n, d)| LedgerDatum { name: tag(n), data: d.to_vec() }).collect(),
    }
}

fn sample_save() -> QuerySave {
    let start = date(1444, 11, 11);
    QuerySave {
        date: date(1821, 1, 1),
        multiplayer: true,
        start_date: start,
        players_countries: ["comagoosie", "IRE", "Player", "ENG", "friend", "SCO"].iter().map(|s| String::from(*s)).collect(),
        countries: vec![
            (tag("ENG"), country(true, true, 5, true, &[], Vec::new())),
            (tag("IRE"), country(true, true, 3, false, &["TYR"], vec![(date(1500, 1, 1), CountryEvents(vec![CountryEvent::ChangedTagFrom(tag("TYR"))]))])),
            (tag("TYR"), country(false, false, 0, false, &[], Vec::new())),
            (tag("FRA"), country(false, false, 9, true, &["BUR"], Vec::new())),
            (tag("BUR"), country(false, false, 0, false, &["FRA"], Vec::new())),
            (tag("SCO"), country(true, false, 0, false, &[], Vec::new())),
        ],
        provinces: vec![
            ProvinceOwnership {
                owner: Some(tag("SCO")),
                initial_flags: vec![String::from("fort_15th"), String::from("hre")],
                events: vec![
                    (date(1486, 6, 3), vec![
                        ProvinceChange::Flag(String::from("marketplace"), true),
                        ProvinceChange::Flag(String::from("is_city"), true),
                        ProvinceChange::Other,
                    ]),
                    (date(1600, 5, 5), vec![ProvinceChange::Owner(tag("ENG"))]),
                    (date(1700, 1, 1), vec![ProvinceChange::Flag(String::from("marketplace"), false)]),
                ],
                buildings: vec![String::from("fort_15th")],
            },
            ProvinceOwnership {
                owner: Some(tag("ENG")),
                initial_flags: Vec::new(),
                events: Vec::new(),
                buildings: vec![String::from("marketplace"), String::from("fort_15th")],
            },
        ],
        income_statistics: ledger(&[("ENG", &[(1445, 10), (1446, 12)]), ("FRA", &[(1445, 5)])]),
        nation_size_statistics: ledger(&[("ENG", &[(1445, 20)]), ("SCO", &[(1445, 2)])]),
        score_statistics: ledger(&[("ENG", &[(1445, 3)]), ("FRA", &[(1445, 1)]), ("TYR", &[(1445, 0)])]),
        inflation_statistics: ledger(&[("ENG", &[])]),
    }
}

fn sorted_tags(v: Vec<CountryTag>) -> Vec<String> {
    let mut out: Vec<String> = v.into_iter().map(|t| t.into_string()).collect();
    out.sort();
    out
}

#[test]
fn player_histories_trace_tag_changes() {
    let q = Query::from_save(sample_save());
    let hs = q.player_histories();
    assert_eq!(hs.len(), 3);

    assert_eq!(hs[0].tag.as_str(), "ENG");
    assert!(hs[0].is_human && hs[0].exists);
    assert_eq!(hs[0].player_names, vec![String::from("Player")]);
    assert_eq!(hs[0].played_tags.len(), 1);
    assert_eq!(hs[0].played_tags[0].tag.as_str(), "ENG");
    assert!(hs[0].played_tags[0].start.same_day(&date(1444, 11, 11)));
    assert!(hs[0].played_tags[0].end.same_day(&date(1821, 1, 1)));

    assert_eq!(hs[1].tag.as_str(), "IRE");
    assert_eq!(hs[1].player_names, vec![String::from("comagoosie")]);
    assert_eq!(hs[1].played_tags.len(), 2);
    assert_eq!(hs[1].played_tags[0].tag.as_str(), "TYR");
    assert!(hs[1].played_tags[0].end.same_day(&date(1500, 1, 1)));
    assert_eq!(hs[1].played_tags[1].tag.as_str(), "IRE");
    assert!(hs[1].played_tags[1].start.same_day(&date(1500, 1, 1)));

    // A country without cities is played until it last lost a province.
    assert_eq!(hs[2].tag.as_str(), "SCO");
    assert!(!hs[2].is_human && !hs[2].exists);
    assert!(hs[2].played_tags[0].end.same_day(&date(1600, 5, 5)));
}

#[test]
fn single_player_ignores_the_generic_player_name() {
    let mut save = sample_save();
    save.multiplayer = false;
    let q = Query::from_save(save);
    assert!(q.player_histories()[0].player_names.is_empty());
}

#[test]
fn player_names_and_countries() {
    let q = Query::from_save(sample_save());
    let mut names = q.player_names();
    names.sort();
    assert_eq!(names, vec![String::from("Player"), String::from("comagoosie"), String::from("friend")]);
    // Every tag a player touched, also of a country no longer played.
    assert_eq!(sorted_tags(q.player_countries()), vec!["ENG", "IRE", "SCO", "TYR"]);
    assert!(q.starting_country().is_none());
}

#[test]
fn starting_country_of_a_single_player() {
    let mut save = sample_save();
    save.countries.retain(|(t, _)| t.as_str() != "ENG" && t.as_str() != "SCO");
    save.multiplayer = false;
    let q = Query::from_save(save);
    assert_eq!(q.starting_country().unwrap().as_str(), "TYR");
}

#[test]
fn multiplayer_has_no_starting_country() {
    let mut save = sample_save();
    save.countries.retain(|(t, _)| t.as_str() != "ENG" && t.as_str() != "SCO");
    let q = Query::from_save(save);
    assert_eq!(q.player_histories().len(), 1);
    assert!(q.starting_country().is_none());
}

#[test]
fn colours_in_hex() {
    let q = Query::from_save(sample_save());
    assert_eq!(q.country_tag_hex_color(&tag("ENG")), Some(String::from("#50a50a")));
    assert_eq!(q.country_tag_hex_color(&tag("XXX")), None);
    let c = country(false, false, 0, false, &[], Vec::new());
    assert_eq!(q.country_color_to_hex(&c), "#50a50a");
}

#[test]
fn great_powers_bring_the_countries_they_grew_out_of() {
    let q = Query::from_save(sample_save());
    let greats = q.filter_countries(&[CountryQuery::Greats], &[], &[]);
    assert_eq!(sorted_tags(greats), vec!["BUR", "ENG", "FRA"]);
}

#[test]
fn includes_and_excludes() {
    let q = Query::from_save(sample_save());
    let r = q.filter_countries(
        &[CountryQuery::Players, CountryQuery::Greats],
        &[String::from("SWE"), String::from("ENG")],
        &[String::from("ENG")],
    );
    assert_eq!(sorted_tags(r), vec!["BUR", "FRA", "IRE", "SCO", "SWE", "TYR"]);
    assert!(q.filter_countries(&[], &[], &[]).is_empty());
}

#[test]
fn annual_ledgers_fill_missing_years() {
    let q = Query::from_save(sample_save());
    let l = q.annual_ledgers(&[CountryQuery::Greats], &[], &[]);
    assert_eq!(l.size.len(), 1);
    assert_eq!(l.size[0].name.as_str(), "ENG");
    assert_eq!(l.income.len(), 2);
    assert_eq!(l.score.len(), 2);
    assert_eq!(l.score[0].name.as_str(), "ENG");
    assert_eq!(l.score[0].data, vec![(1445, 3), (1446, 0)]);
    assert_eq!(l.score[1].data, vec![(1445, 1)]);
    assert_eq!(l.inflation.len(), 1);
    assert_eq!(l.inflation[0].data, vec![(1445, 0), (1446, 0)]);
}

#[test]
fn mana_breakdown() {
    let q = Query::from_save(sample_save());
    let c = country(false, false, 0, false, &[], Vec::new());
    let u = q.country_mana_breakdown(&c);
    assert_eq!(u.adm.buy_idea, 5);
    assert_eq!(u.adm.force_march, 5);
    assert_eq!(u.adm.other, 9);
    assert_eq!(u.adm.advance_tech, 0);
    assert_eq!(u.dip.other, 0);
    assert_eq!(u.mil.advance_tech, 4);
    assert_eq!(find_index(8, &[(8, 2), (8, 9)]), 2);
    assert_eq!(find_index(7, &[(8, 2)]), 0);
}

#[test]
fn buildings_over_time() {
    let q = Query::from_save(sample_save());
    let mut b = q.built_buildings();
    b.sort();
    assert_eq!(b, vec![String::from("fort_15th"), String::from("marketplace")]);
    let save = sample_save();
    let h = q.province_building_history(&save.provinces[0]);
    assert_eq!(h.len(), 3);
    assert_eq!(h[0].building, "fort_15th");
    assert!(h[0].date.same_day(&date(1444, 11, 11)));
    assert_eq!(h[0].action, BuildingConstruction::Constructed);
    assert_eq!(h[1].building, "marketplace");
    assert!(h[1].date.same_day(&date(1486, 6, 3)));
    assert_eq!(h[1].action, BuildingConstruction::Constructed);
    assert_eq!(h[2].building, "marketplace");
    assert_eq!(h[2].action, BuildingConstruction::Destroyed);
}
