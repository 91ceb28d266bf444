//! What the keys of the dated histories in a save mean.
use crate::date::{text_date, Eu4Date};
use crate::strings::str_eq;
use vstd::prelude::*;

verus! {
/// The field of a country's history that a key names.
#[derive(Debug, Clone, Copy, PartialEq, Eq, Structural)]
pub enum CountryHistoryKey {
    Government,
    TechnologyGroup,
    PrimaryCulture,
    Religion,
    AddGovernmentReform,
    /// A date, under which the events of that day stand.
    Date(Eu4Date),
    /// Any other key.
    Other,
}

pub open spec fn country_history_key_of(key: Seq<char>) -> CountryHistoryKey {
    if key == "government"@ {
        CountryHistoryKey::Government
    } else if key == "technology_group"@ {
        CountryHistoryKey::TechnologyGroup
    } else if key == "primary_culture"@ {
        CountryHistoryKey::PrimaryCulture
    } else if key == "religion"@ {
        CountryHistoryKey::Religion
    } else if key == "add_government_reform"@ {
        CountryHistoryKey::AddGovernmentReform
    } else {
        match text_date(key) {
            Some(d) => CountryHistoryKey::Date(Eu4Date::from_ymd_spec(d)),
            None => CountryHistoryKey::Other,
        }
    }
}

pub fn country_history_key(key: &str) -> (r: CountryHistoryKey)
    ensures
        r == country_history_key_of(key@),
{
    if str_eq(key, "government") {
        CountryHistoryKey::Government
    } else if str_eq(key, "technology_group") {
        CountryHistoryKey::TechnologyGroup
    } else if str_eq(key, "primary_culture") {
        CountryHistoryKey::PrimaryCulture
    } else if str_eq(key, "religion") {
        CountryHistoryKey::Religion
    } else if str_eq(key, "add_government_reform") {
        CountryHistoryKey::AddGovernmentReform
    } else {
        match Eu4Date::parse(key) {
            Some(d) => {
                proof {
                    d.lemma_from_ymd_spec();
                }
                CountryHistoryKey::Date(d)
            },
            None => CountryHistoryKey::Other,
        }
    }
}

/// The kind of country event that a key names.
#[derive(Debug, Clone, Copy, PartialEq, Eq, Structural)]
pub enum CountryEventKey {
    Monarch,
    MonarchHeir,
    MonarchConsort,
    Heir,
    Queen,
    Union,
    Capital,
    Leader,
    RemoveAcceptedCulture,
    ChangedCountryNameFrom,
    ChangedCountryAdjectiveFrom,
    ChangedCountryMapColorFrom,
    ChangedTagFrom,
    Religion,
    /// Any other key.
    Other,
}

pub open spec fn country_event_key_of(key: Seq<char>) -> CountryEventKey {
    if key == "monarch"@ {
        CountryEventKey::Monarch
    } else if key == "monarch_heir"@ {
        CountryEventKey::MonarchHeir
    } else if key == "monarch_consort"@ {
        CountryEventKey::MonarchConsort
    } else if key == "heir"@ {
        CountryEventKey::Heir
    } else if key == "queen"@ {
        CountryEventKey::Queen
    } else if key == "union"@ {
        CountryEventKey::Union
    } else if key == "capital"@ {
        CountryEventKey::Capital
    } else if key == "leader"@ {
        CountryEventKey::Leader
    } else if key == "remove_accepted_culture"@ {
        CountryEventKey::RemoveAcceptedCulture
    } else if key == "changed_country_name_from"@ {
        CountryEventKey::ChangedCountryNameFrom
    } else if key == "changed_country_adjective_from"@ {
        CountryEventKey::ChangedCountryAdjectiveFrom
    } else if key == "changed_country_mapcolor_from"@ {
        CountryEventKey::ChangedCountryMapColorFrom
    } else if key == "changed_tag_from"@ {
        CountryEventKey::ChangedTagFrom
    } else if key == "religion"@ {
        CountryEventKey::Religion
    } else {
        CountryEventKey::Other
    }
}

pub fn country_event_key(key: &str) -> (r: CountryEventKey)
    ensures
        r == country_event_key_of(key@),
{
    if str_eq(key, "monarch") {
        CountryEventKey::Monarch
    } else if str_eq(key, "monarch_heir") {
        CountryEventKey::MonarchHeir
    } else if str_eq(key, "monarch_consort") {
        CountryEventKey::MonarchConsort
    } else if str_eq(key, "heir") {
        CountryEventKey::Heir
    } else if str_eq(key, "queen") {
        CountryEventKey::Queen
    } else if str_eq(key, "union") {
        CountryEventKey::Union
    } else if str_eq(key, "capital") {
        CountryEventKey::Capital
    } else if str_eq(key, "leader") {
        CountryEventKey::Leader
    } else if str_eq(key, "remove_accepted_culture") {
        CountryEventKey::RemoveAcceptedCulture
    } else if str_eq(key, "changed_country_name_from") {
        CountryEventKey::ChangedCountryNameFrom
    } else if str_eq(key, "changed_country_adjective_from") {
        CountryEventKey::ChangedCountryAdjectiveFrom
    } else if str_eq(key, "changed_country_mapcolor_from") {
        CountryEventKey::ChangedCountryMapColorFrom
    } else if str_eq(key, "changed_tag_from") {
        CountryEventKey::ChangedTagFrom
    } else if str_eq(key, "religion") {
        CountryEventKey::Religion
    } else {
        CountryEventKey::Other
    }
}

/// The field of a province's history that a key names.
#[derive(Debug, Clone, Copy, PartialEq, Eq, Structural)]
pub enum ProvinceHistoryKey {
    Owner,
    BaseTax,
    BaseProduction,
    BaseManpower,
    Religion,
    /// A date, under which the events of that day stand.
    Date(Eu4Date),
    /// Any other key.
    Other,
}

pub open spec fn province_history_key_of(key: Seq<char>) -> ProvinceHistoryKey {
    if key == "owner"@ {
        ProvinceHistoryKey::Owner
    } else if key == "base_tax"@ {
        ProvinceHistoryKey::BaseTax
    } else if key == "base_production"@ {
        ProvinceHistoryKey::BaseProduction
    } else if key == "base_manpower"@ {
        ProvinceHistoryKey::BaseManpower
    } else if key == "religion"@ {
        ProvinceHistoryKey::Religion
    } else {
        match text_date(key) {
            Some(d) => ProvinceHistoryKey::Date(Eu4Date::from_ymd_spec(d)),
            None => ProvinceHistoryKey::Other,
        }
    }
}

pub fn province_history_key(key: &str) -> (r: ProvinceHistoryKey)
    ensures
        r == province_history_key_of(key@),
{
    if str_eq(key, "owner") {
        ProvinceHistoryKey::Owner
    } else if str_eq(key, "base_tax") {
        ProvinceHistoryKey::BaseTax
    } else if str_eq(key, "base_production") {
        ProvinceHistoryKey::BaseProduction
    } else if str_eq(key, "base_manpower") {
        ProvinceHistoryKey::BaseManpower
    } else if str_eq(key, "religion") {
        ProvinceHistoryKey::Religion
    } else {
        match Eu4Date::parse(key) {
            Some(d) => {
                proof {
                    d.lemma_from_ymd_spec();
                }
                ProvinceHistoryKey::Date(d)
            },
            None => ProvinceHistoryKey::Other,
        }
    }
}

/// The kind of province event that a key names; any other key is a flag kept only when its value is a yes or no.
#[derive(Debug, Clone, Copy, PartialEq, Eq, Structural)]
pub enum ProvinceEventKey {
    Owner,
    Controller,
    BaseTax,
    BaseManpower,
    BaseProduction,
    Religion,
    /// Any other key.
    Other,
}

pub open spec fn province_event_key_of(key: Seq<char>) -> ProvinceEventKey {
    if key == "owner"@ {
        ProvinceEventKey::Owner
    } else if key == "controller"@ {
        ProvinceEventKey::Controller
    } else if key == "base_tax"@ {
        ProvinceEventKey::BaseTax
    } else if key == "base_manpower"@ {
        ProvinceEventKey::BaseManpower
    } else if key == "base_production"@ {
        ProvinceEventKey::BaseProduction
    } else if key == "religion"@ {
        ProvinceEventKey::Religion
    } else {
        ProvinceEventKey::Other
    }
}

pub fn province_event_key(key: &str) -> (r: ProvinceEventKey)
    ensures
        r == province_event_key_of(key@),
{
    if str_eq(key, "owner") {
        ProvinceEventKey::Owner
    } else if str_eq(key, "controller") {
        ProvinceEventKey::Controller
    } else if str_eq(key, "base_tax") {
        ProvinceEventKey::BaseTax
    } else if str_eq(key, "base_manpower") {
        ProvinceEventKey::BaseManpower
    } else if str_eq(key, "base_production") {
        ProvinceEventKey::BaseProduction
    } else if str_eq(key, "religion") {
        ProvinceEventKey::Religion
    } else {
        ProvinceEventKey::Other
    }
}

/// The field of a war's history that a key names; any other key must be a date.
#[derive(Debug, Clone, Copy, PartialEq, Eq, Structural)]
pub enum WarHistoryKey {
    Name,
    WarGoal,
    Succession,
    /// A date, under which the events of that day stand.
    Date(Eu4Date),
    /// Any other key.
    Other,
}

pub open spec fn war_history_key_of(key: Seq<char>) -> WarHistoryKey {
    if key == "name"@ {
        WarHistoryKey::Name
    } else if key == "war_goal"@ {
        WarHistoryKey::WarGoal
    } else if key == "succession"@ {
        WarHistoryKey::Succession
    } else {
        match text_date(key) {
            Some(d) => WarHistoryKey::Date(Eu4Date::from_ymd_spec(d)),
            None => WarHistoryKey::Other,
        }
    }
}

pub fn war_history_key(key: &str) -> (r: WarHistoryKey)
    ensures
        r == war_history_key_of(key@),
{
    if str_eq(key, "name") {
        WarHistoryKey::Name
    } else if str_eq(key, "war_goal") {
        WarHistoryKey::WarGoal
    } else if str_eq(key, "succession") {
        WarHistoryKey::Succession
    } else {
        match Eu4Date::parse(key) {
            Some(d) => {
                proof {
                    d.lemma_from_ymd_spec();
                }
                WarHistoryKey::Date(d)
            },
            None => WarHistoryKey::Other,
        }
    }
}

/// The kind of war event that a key names; any other key is refused.
#[derive(Debug, Clone, Copy, PartialEq, Eq, Structural)]
pub enum WarEventKey {
    AddAttacker,
    AddDefender,
    RemoveAttacker,
    RemoveDefender,
    Battle,
    /// Any other key.
    Other,
}

pub open spec fn war_event_key_of(key: Seq<char>) -> WarEventKey {
    if key == "add_attacker"@ {
        WarEventKey::AddAttacker
    } else if key == "add_defender"@ {
        WarEventKey::AddDefender
    } else if key == "rem_attacker"@ {
        WarEventKey::RemoveAttacker
    } else if key == "rem_defender"@ {
        WarEventKey::RemoveDefender
    } else if key == "battle"@ {
        WarEventKey::Battle
    } else {
        WarEventKey::Other
    }
}

pub fn war_event_key(key: &str) -> (r: WarEventKey)
    ensures
        r == war_event_key_of(key@),
{
    if str_eq(key, "add_attacker") {
        WarEventKey::AddAttacker
    } else if str_eq(key, "add_defender") {
        WarEventKey::AddDefender
    } else if str_eq(key, "rem_attacker") {
        WarEventKey::RemoveAttacker
    } else if str_eq(key, "rem_defender") {
        WarEventKey::RemoveDefender
    } else if str_eq(key, "battle") {
        WarEventKey::Battle
    } else {
        WarEventKey::Other
    }
}

} // verus!
