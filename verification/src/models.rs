//! Repository of raw structs extracted from a save file
use crate::country_tag::CountryTag;
use crate::date::Eu4Date;
use vstd::prelude::*;

verus! {

#[derive(Debug, Clone)]
pub struct ModName {
    pub filename: String,
    pub name: String,
}

#[derive(Debug, Clone)]
pub struct SavegameVersion {
    pub first: u16,
    pub second: u16,
    pub third: u16,
    pub fourth: u16,
    pub name: String,
}

#[derive(Debug, Clone)]
pub struct GameplaySettings {
    pub options: GameplayOptions,
}

#[derive(Debug, Clone, Copy, PartialEq, Eq, Structural)]
pub enum TaxManpowerModifier {
    Historical,
    Random,
    Equal,
}

#[derive(Debug, Clone, Copy, PartialEq, Eq, Structural)]
pub enum GameDifficulty {
    VeryEasy,
    Easy,
    Normal,
    Hard,
    VeryHard,
}

#[derive(Debug, Clone)]
pub struct GameplayOptions {
    pub difficulty: GameDifficulty,
    pub tax_manpower_modifier: TaxManpowerModifier,
}

#[derive(Debug, Clone)]
pub struct TradeCompanyInvestment {
    pub tag: CountryTag,
    pub investments: Vec<String>,
}

#[derive(Debug, Clone)]
pub struct HRE {
    pub emperor: Option<CountryTag>,
    pub passed_reforms: Vec<String>,
    pub electors: Vec<CountryTag>,
}

#[derive(Debug, Clone)]
pub struct LedgerData {
    pub ledger: Vec<LedgerDatum>,
}

/// A country's yearly values of a statistic, as (year, value) pairs.
#[derive(Debug, Clone)]
pub struct LedgerDatum {
    pub name: CountryTag,
    pub data: Vec<(u16, i32)>,
}

#[derive(Debug, Clone)]
pub struct ControllerEvent {
    pub tag: CountryTag,
}

#[derive(Debug, Clone, Copy, PartialEq, Eq, Structural)]
pub enum LeaderKind {
    Admiral,
    General,
    Explorer,
    Conquistador,
}

#[derive(Debug, Clone)]
pub struct CountryColors {
    pub revolutionary_colors: Option<Vec<u8>>,
    pub map_color: Vec<u8>,
    pub country_color: Vec<u8>,
}

#[derive(Debug, Clone, Copy, PartialEq, Eq, Structural)]
pub struct CountryTechnology {
    pub adm_tech: u8,
    pub dip_tech: u8,
    pub mil_tech: u8,
}

#[derive(Debug, Clone, Copy, PartialEq, Eq, Structural)]
pub struct ObjId {
    pub id: u32,
    pub _type: u32,
}

#[derive(Debug, Clone)]
pub struct WarParticipantLosses {
    pub members: Vec<u32>,
}

#[derive(Debug, Clone)]
pub struct WarGoal {
    pub _type: String,
    pub casus_belli: String,
}

#[derive(Debug, Clone)]
pub struct BattleSide {
    pub cavalry: u32,
    pub infantry: u32,
    pub artillery: u32,
    pub heavy_ship: u32,
    pub light_ship: u32,
    pub galley: u32,
    pub transport: u32,
    pub losses: u32,
    pub country: CountryTag,
    pub commander: Option<String>,
}

#[derive(Debug, Clone)]
pub struct Leader {
    pub name: String,
    pub kind: LeaderKind,
    pub manuever: u16,
    pub shock: u16,
    pub fire: u16,
    pub siege: u16,
    pub monarch_id: Option<ObjId>,
    pub activation: Option<Eu4Date>,
    pub id: Option<ObjId>,
}

#[derive(Debug, Clone)]
pub struct Monarch {
    pub id: ObjId,
    pub name: String,
    pub country: CountryTag,
    pub dip: u16,
    pub adm: u16,
    pub mil: u16,
    pub regent: bool,
    pub culture: Option<String>,
    pub religion: Option<String>,
    pub birth_date: Eu4Date,
    pub personalities: Vec<(String, String)>,
    pub leader_id: Option<ObjId>,
    pub leader: Option<Leader>,
}

#[derive(Debug, Clone)]
pub enum CountryEvent {
    Monarch(Monarch),
    Heir(Monarch),
    MonarchHeir(Monarch),
    MonarchConsort(Monarch),
    Queen(Monarch),
    Union(u32),
    Capital(u32),
    ChangedCountryNameFrom(String),
    ChangedCountryAdjectiveFrom(String),
    ChangedCountryMapColorFrom(Vec<u8>),
    ChangedTagFrom(CountryTag),
    Leader(Leader),
    RemoveAcceptedCulture(String),
    Religion(String),
}

/// The ruler of a monarch event: for monarchs, heirs, consorts and queens.
pub open spec fn event_monarch(e: CountryEvent) -> Option<Monarch> {
    match e {
        CountryEvent::Monarch(x) => Some(x),
        CountryEvent::Heir(x) => Some(x),
        CountryEvent::MonarchHeir(x) => Some(x),
        CountryEvent::MonarchConsort(x) => Some(x),
        CountryEvent::Queen(x) => Some(x),
        _ => None,
    }
}

impl CountryEvent {
    pub fn as_monarch(&self) -> (m: Option<&Monarch>)
        ensures
            match m {
                Some(x) => event_monarch(*self) == Some(*x),
                None => event_monarch(*self) is None,
            },
    {
        match self {
            CountryEvent::Monarch(x) => Some(x),
            CountryEvent::Heir(x) => Some(x),
            CountryEvent::MonarchHeir(x) => Some(x),
            CountryEvent::MonarchConsort(x) => Some(x),
            CountryEvent::Queen(x) => Some(x),
            _ => None,
        }
    }
}

#[derive(Debug, Clone)]
pub struct CountryEvents(pub Vec<CountryEvent>);

#[derive(Debug, Clone)]
pub struct CountryHistory {
    pub government: Option<String>,
    pub technology_group: Option<String>,
    pub primary_culture: Option<String>,
    pub add_government_reform: Vec<String>,
    pub events: Vec<(Eu4Date, CountryEvents)>,
}

/// The parts of a country that the queries read.
#[derive(Debug, Clone)]
pub struct Country {
    pub human: bool,
    pub was_player: bool,
    pub is_great_power: bool,
    pub history: CountryHistory,
    pub previous_country_tags: Vec<CountryTag>,
    pub colors: CountryColors,
    pub num_of_cities: i32,
    pub adm_spent_indexed: Vec<(i32, i32)>,
    pub dip_spent_indexed: Vec<(i32, i32)>,
    pub mil_spent_indexed: Vec<(i32, i32)>,
}

#[derive(Debug, Clone)]
pub struct Modifier {
    pub modifier: String,
    pub date: Eu4Date,
}

/// Provinces are built as cities by default.
pub fn default_true() -> (b: bool)
    ensures
        b,
{
    true
}

} // verus!
