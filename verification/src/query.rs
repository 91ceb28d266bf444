//! Ergonomic module for querying info from a save file
use crate::country_tag::CountryTag;
use crate::date::Eu4Date;
use crate::history::{
    calc_histories, history_end, history_matches, history_tag_changes, kept_entries,
    played_stretch, player_indices, player_names_of, CountryPlayed, PlayerHistory,
    ProvinceOwnership,
};
use crate::strings::{hex_byte, push_hex_byte, str_eq};
use vstd::string::StringExecFns;
use crate::models::{Country, LedgerData, LedgerDatum};
use vstd::prelude::*;

verus! {

/// Something that happened to a nation.
#[derive(Debug, Clone)]
pub enum NationEventKind {
    /// The nation switched to this tag.
    TagSwitch(CountryTag),
    /// The nation appeared.
    Appeared,
    /// The nation was annexed.
    Annexed,
}

#[derive(Debug, Clone)]
pub struct NationEvent {
    pub date: Eu4Date,
    pub kind: NationEventKind,
}

/// The history of one nation: the tag it started as, the tag it is stored
/// under in the save, and what happened to it.
#[derive(Debug, Clone)]
pub struct NationEvents {
    pub initial: CountryTag,
    pub latest: CountryTag,
    pub stored: CountryTag,
    pub events: Vec<NationEvent>,
}

/// The parts of a save that the queries read.
#[derive(Debug)]
pub struct QuerySave {
    /// When the save was written.
    pub date: Eu4Date,
    pub multiplayer: bool,
    pub start_date: Eu4Date,
    /// Player names and the tags they play, in pairs.
    pub players_countries: Vec<String>,
    pub countries: Vec<(CountryTag, Country)>,
    pub provinces: Vec<ProvinceOwnership>,
    pub income_statistics: LedgerData,
    pub nation_size_statistics: LedgerData,
    pub score_statistics: LedgerData,
    pub inflation_statistics: LedgerData,
}

impl QuerySave {
    /// No two countries share a tag.
    pub open spec fn wf(&self) -> bool {
        forall|a: int, b: int|
            0 <= a < b < self.countries@.len() ==> (#[trigger] self.countries@[a]).0@
                != (#[trigger] self.countries@[b]).0@
    }
}

#[derive(Debug, Clone, Copy, PartialEq, Eq, Structural)]
pub enum CountryQuery {
    Players,
    Greats,
}

#[derive(Debug)]
pub struct AnnualLedgers {
    pub score: Vec<LedgerDatum>,
    pub inflation: Vec<LedgerDatum>,
    pub size: Vec<LedgerDatum>,
    pub income: Vec<LedgerDatum>,
}

#[derive(Debug, Clone, Copy, PartialEq, Eq, Structural)]
pub enum BuildingConstruction {
    Constructed,
    Destroyed,
}

/// Mana spent on each kind of action, by category index.
#[derive(Debug, Clone, Copy, PartialEq, Eq, Structural)]
pub struct CountryManaSpend {
    pub buy_idea: i32,
    pub advance_tech: i32,
    pub boost_stab: i32,
    pub buy_general: i32,
    pub buy_admiral: i32,
    pub buy_conq: i32,
    pub buy_explorer: i32,
    pub develop_prov: i32,
    pub force_march: i32,
    pub assault: i32,
    pub seize_colony: i32,
    pub burn_colony: i32,
    pub attack_natives: i32,
    pub scorch_earth: i32,
    pub demand_non_wargoal_prov: i32,
    pub reduce_inflation: i32,
    pub move_capital: i32,
    pub make_province_core: i32,
    pub replace_rival: i32,
    pub change_gov: i32,
    pub change_culture: i32,
    pub harsh_treatment: i32,
    pub reduce_we: i32,
    pub boost_faction: i32,
    pub raise_war_taxes: i32,
    pub buy_native_advancement: i32,
    pub increse_tariffs: i32,
    pub promote_merc: i32,
    pub decrease_tariffs: i32,
    pub move_trade_port: i32,
    pub create_trade_post: i32,
    pub siege_sorties: i32,
    pub buy_religious_reform: i32,
    pub set_primary_culture: i32,
    pub add_accepted_culture: i32,
    pub remove_accepted_culture: i32,
    pub strengthen_government: i32,
    pub boost_militarization: i32,
    pub artillery_barrage: i32,
    pub establish_siberian_frontier: i32,
    pub government_interaction: i32,
    pub naval_barrage: i32,
    pub create_leader: i32,
    pub enforce_culture: i32,
    pub effect: i32,
    pub minority_expulsion: i32,
    pub other: i32,
}

#[derive(Debug, Clone, Copy, PartialEq, Eq, Structural)]
pub struct CountryManaUsage {
    pub adm: CountryManaSpend,
    pub dip: CountryManaSpend,
    pub mil: CountryManaSpend,
}

/// The value paired with the first occurrence of `index`, or zero.
pub open spec fn find_value(index: int, data: Seq<(i32, i32)>) -> int
    decreases data.len(),
{
    if data.len() == 0 {
        0
    } else if data[0].0 == index {
        data[0].1 as int
    } else {
        find_value(index, data.skip(1))
    }
}

/// The sum of the values whose index is above `cut`, added in order.
pub open spec fn sum_above(data: Seq<(i32, i32)>, cut: int) -> int
    decreases data.len(),
{
    if data.len() == 0 {
        0
    } else {
        sum_above(data.drop_last(), cut) + if data.last().0 > cut {
            data.last().1 as int
        } else {
            0
        }
    }
}

pub open spec fn fits_i32(x: int) -> bool {
    i32::MIN <= x <= i32::MAX
}

/// The sums of mana that breaking down `data` adds fit in 32 bits, the
/// running sum of the uncategorised values included.
pub open spec fn mana_sums_fit(data: Seq<(i32, i32)>) -> bool {
    &&& fits_i32(find_value(8, data) + find_value(45, data))
    &&& fits_i32(find_value(38, data) + find_value(42, data))
    &&& fits_i32(find_value(38, data) + find_value(42, data) + find_value(44, data))
    &&& fits_i32(find_value(38, data) + find_value(42, data) + find_value(44, data) + sum_above(data, 49))
    &&& forall|k: int| 0 <= k <= data.len() ==> fits_i32(#[trigger] sum_above(data.take(k), 49))
}

/// The value paired with the first occurrence of `index`, or zero.
pub fn find_index(index: i32, data: &[(i32, i32)]) -> (v: i32)
    ensures
        v == find_value(index as int, data@),
{
    let mut i: usize = 0;
    proof {
        assert(data@.skip(0) =~= data@);
    }
    while i < data.len()
        invariant
            i <= data@.len(),
            find_value(index as int, data@) == find_value(index as int, data@.skip(i as int)),
        decreases data@.len() - i,
    {
        proof {
            assert(data@.skip(i as int).skip(1) =~= data@.skip(i + 1));
        }
        let (ind, val) = data[i];
        if ind == index {
            return val;
        }
        i = i + 1;
    }
    proof {
        assert(data@.skip(i as int) =~= Seq::<(i32, i32)>::empty());
    }
    0
}

fn sum_values_above(data: &[(i32, i32)], cut: i32) -> (s: i32)
    requires
        forall|k: int| 0 <= k <= data@.len() ==> fits_i32(#[trigger] sum_above(data@.take(k), cut as int)),
    ensures
        s == sum_above(data@, cut as int),
{
    let mut total: i32 = 0;
    let mut i: usize = 0;
    proof {
        assert(data@.take(0) =~= Seq::<(i32, i32)>::empty());
    }
    while i < data.len()
        invariant
            i <= data@.len(),
            total == sum_above(data@.take(i as int), cut as int),
            forall|k: int| 0 <= k <= data@.len() ==> fits_i32(#[trigger] sum_above(data@.take(k), cut as int)),
        decreases data@.len() - i,
    {
        let (ind, val) = data[i];
        proof {
            assert(data@.take(i + 1).drop_last() =~= data@.take(i as int));
            assert(fits_i32(sum_above(data@.take(i + 1), cut as int)));
        }
        if ind > cut {
            total = total + val;
        }
        i = i + 1;
    }
    proof {
        assert(data@.take(i as int) =~= data@);
    }
    total
}

/// The breakdown of a ledger of (index, amount) pairs.
pub open spec fn mana_spent(data: Seq<(i32, i32)>) -> CountryManaSpend {
    CountryManaSpend {
        buy_idea: find_value(0, data) as i32,
        advance_tech: find_value(1, data) as i32,
        boost_stab: find_value(2, data) as i32,
        buy_general: find_value(3, data) as i32,
        buy_admiral: find_value(4, data) as i32,
        buy_conq: find_value(5, data) as i32,
        buy_explorer: find_value(6, data) as i32,
        develop_prov: find_value(7, data) as i32,
        force_march: (find_value(8, data) + find_value(45, data)) as i32,
        assault: find_value(9, data) as i32,
        seize_colony: find_value(10, data) as i32,
        burn_colony: find_value(11, data) as i32,
        attack_natives: find_value(12, data) as i32,
        scorch_earth: find_value(13, data) as i32,
        demand_non_wargoal_prov: find_value(14, data) as i32,
        reduce_inflation: find_value(15, data) as i32,
        move_capital: find_value(16, data) as i32,
        make_province_core: find_value(17, data) as i32,
        replace_rival: find_value(18, data) as i32,
        change_gov: find_value(19, data) as i32,
        change_culture: find_value(20, data) as i32,
        harsh_treatment: find_value(21, data) as i32,
        reduce_we: find_value(22, data) as i32,
        boost_faction: find_value(23, data) as i32,
        raise_war_taxes: find_value(24, data) as i32,
        buy_native_advancement: find_value(25, data) as i32,
        increse_tariffs: find_value(26, data) as i32,
        promote_merc: find_value(27, data) as i32,
        decrease_tariffs: find_value(28, data) as i32,
        move_trade_port: find_value(29, data) as i32,
        create_trade_post: find_value(30, data) as i32,
        siege_sorties: find_value(31, data) as i32,
        buy_religious_reform: find_value(32, data) as i32,
        set_primary_culture: find_value(33, data) as i32,
        add_accepted_culture: find_value(34, data) as i32,
        remove_accepted_culture: find_value(35, data) as i32,
        strengthen_government: find_value(36, data) as i32,
        boost_militarization: find_value(37, data) as i32,
        artillery_barrage: find_value(39, data) as i32,
        establish_siberian_frontier: find_value(40, data) as i32,
        government_interaction: find_value(41, data) as i32,
        naval_barrage: find_value(43, data) as i32,
        create_leader: find_value(46, data) as i32,
        enforce_culture: find_value(47, data) as i32,
        effect: find_value(48, data) as i32,
        minority_expulsion: find_value(49, data) as i32,
        other: (find_value(38, data) + find_value(42, data) + find_value(44, data) + sum_above(data, 49)) as i32,
    }
}

/// Whether some entry of the ledger has this index.
pub open spec fn has_index(data: Seq<(i32, i32)>, index: int) -> bool {
    exists|j: int| 0 <= j < data.len() && #[trigger] data[j].0 == index
}

proof fn lemma_find_absent(index: int, data: Seq<(i32, i32)>)
    requires
        !has_index(data, index),
    ensures
        find_value(index, data) == 0,
    decreases data.len(),
{
    if data.len() > 0 {
        assert(data[0].0 != index);
        assert forall|j: int| 0 <= j < data.skip(1).len() implies #[trigger] data.skip(1)[j].0 != index by {
            assert(data.skip(1)[j] == data[j + 1]);
        }
        lemma_find_absent(index, data.skip(1));
    }
}

proof fn lemma_find_push(index: int, data: Seq<(i32, i32)>, e: (i32, i32))
    ensures
        e.0 != index ==> find_value(index, data.push(e)) == find_value(index, data),
        e.0 == index && !has_index(data, index) ==> find_value(index, data.push(e)) == e.1,
    decreases data.len(),
{
    if data.len() == 0 {
        assert(data.push(e).skip(1) =~= Seq::<(i32, i32)>::empty());
        assert(find_value(index, data.push(e).skip(1)) == 0);
        assert(data.push(e)[0] == e);
    } else {
        assert(data.push(e)[0] == data[0]);
        assert(data.push(e).skip(1) =~= data.skip(1).push(e));
        if !has_index(data, index) {
            assert forall|j: int| 0 <= j < data.skip(1).len() implies #[trigger] data.skip(1)[j].0 != index by {
                assert(data.skip(1)[j] == data[j + 1]);
            }
        }
        lemma_find_push(index, data.skip(1), e);
    }
}

proof fn lemma_sum_above_low(data: Seq<(i32, i32)>)
    requires
        forall|j: int| 0 <= j < data.len() ==> #[trigger] data[j].0 <= 49,
    ensures
        sum_above(data, 49) == 0,
    decreases data.len(),
{
    if data.len() > 0 {
        assert(data.last().0 <= 49);
        lemma_sum_above_low(data.drop_last());
    }
}

/// An entry of a mana ledger whose index is a category of its own (at most
/// 49, but for the indices 38, 42 and 44 that count as other spending) never
/// counts as other spending: a ledger of such entries has nothing other.
pub proof fn law_mana_categories_leave_other_empty(data: Seq<(i32, i32)>)
    requires
        mana_sums_fit(data),
        forall|j: int|
            0 <= j < data.len() ==> #[trigger] data[j].0 <= 49 && data[j].0 != 38 && data[j].0 != 42
                && data[j].0 != 44,
    ensures
        mana_spent(data).other == 0,
{
    lemma_find_absent(38, data);
    lemma_find_absent(42, data);
    lemma_find_absent(44, data);
    lemma_sum_above_low(data);
}

/// Each entry added to a mana ledger (under an index not yet in it) is
/// counted once: above index 49 it adds its amount to other spending and
/// changes no category; at index 49 it is the minority expulsion spending
/// and other spending is unchanged; any other category index leaves other
/// spending unchanged, unless it is 38, 42 or 44.
pub proof fn law_mana_entry_counted_once(data: Seq<(i32, i32)>, k: i32, v: i32)
    requires
        mana_sums_fit(data),
        mana_sums_fit(data.push((k, v))),
        !has_index(data, k as int),
    ensures
        k > 49 ==> mana_spent(data.push((k, v))).other == mana_spent(data).other + v
            && mana_spent(data.push((k, v))).minority_expulsion == mana_spent(data).minority_expulsion,
        k == 49 ==> mana_spent(data.push((k, v))).minority_expulsion == v
            && mana_spent(data.push((k, v))).other == mana_spent(data).other,
        k <= 49 && k != 38 && k != 42 && k != 44 ==> mana_spent(data.push((k, v))).other
            == mana_spent(data).other,
{
    let e = (k, v);
    let d2 = data.push(e);
    assert(d2.drop_last() =~= data);
    assert(d2.last() == e);
    lemma_find_push(38, data, e);
    lemma_find_push(42, data, e);
    lemma_find_push(44, data, e);
    lemma_find_push(49, data, e);
}

/// Mana spent, by category, from the (index, amount) pairs of a ledger.
pub fn mana_spent_indexed(data: &[(i32, i32)]) -> (s: CountryManaSpend)
    requires
        mana_sums_fit(data@),
    ensures
        s == mana_spent(data@),
        s.buy_idea == find_value(0, data@),
        s.advance_tech == find_value(1, data@),
        s.boost_stab == find_value(2, data@),
        s.buy_general == find_value(3, data@),
        s.buy_admiral == find_value(4, data@),
        s.buy_conq == find_value(5, data@),
        s.buy_explorer == find_value(6, data@),
        s.develop_prov == find_value(7, data@),
        s.force_march == find_value(8, data@) + find_value(45, data@),
        s.assault == find_value(9, data@),
        s.seize_colony == find_value(10, data@),
        s.burn_colony == find_value(11, data@),
        s.attack_natives == find_value(12, data@),
        s.scorch_earth == find_value(13, data@),
        s.demand_non_wargoal_prov == find_value(14, data@),
        s.reduce_inflation == find_value(15, data@),
        s.move_capital == find_value(16, data@),
        s.make_province_core == find_value(17, data@),
        s.replace_rival == find_value(18, data@),
        s.change_gov == find_value(19, data@),
        s.change_culture == find_value(20, data@),
        s.harsh_treatment == find_value(21, data@),
        s.reduce_we == find_value(22, data@),
        s.boost_faction == find_value(23, data@),
        s.raise_war_taxes == find_value(24, data@),
        s.buy_native_advancement == find_value(25, data@),
        s.increse_tariffs == find_value(26, data@),
        s.promote_merc == find_value(27, data@),
        s.decrease_tariffs == find_value(28, data@),
        s.move_trade_port == find_value(29, data@),
        s.create_trade_post == find_value(30, data@),
        s.siege_sorties == find_value(31, data@),
        s.buy_religious_reform == find_value(32, data@),
        s.set_primary_culture == find_value(33, data@),
        s.add_accepted_culture == find_value(34, data@),
        s.remove_accepted_culture == find_value(35, data@),
        s.strengthen_government == find_value(36, data@),
        s.boost_militarization == find_value(37, data@),
        s.artillery_barrage == find_value(39, data@),
        s.establish_siberian_frontier == find_value(40, data@),
        s.government_interaction == find_value(41, data@),
        s.naval_barrage == find_value(43, data@),
        s.create_leader == find_value(46, data@),
        s.enforce_culture == find_value(47, data@),
        s.effect == find_value(48, data@),
        s.minority_expulsion == find_value(49, data@),
        s.other == find_value(38, data@) + find_value(42, data@) + find_value(44, data@) + sum_above(data@, 49),
{
    let force_march = find_index(8, data) + find_index(45, data);
    let other = find_index(38, data) + find_index(42, data) + find_index(44, data)
        + sum_values_above(data, 49);
    CountryManaSpend {
        buy_idea: find_index(0, data),
        advance_tech: find_index(1, data),
        boost_stab: find_index(2, data),
        buy_general: find_index(3, data),
        buy_admiral: find_index(4, data),
        buy_conq: find_index(5, data),
        buy_explorer: find_index(6, data),
        develop_prov: find_index(7, data),
        force_march,
        assault: find_index(9, data),
        seize_colony: find_index(10, data),
        burn_colony: find_index(11, data),
        attack_natives: find_index(12, data),
        scorch_earth: find_index(13, data),
        demand_non_wargoal_prov: find_index(14, data),
        reduce_inflation: find_index(15, data),
        move_capital: find_index(16, data),
        make_province_core: find_index(17, data),
        replace_rival: find_index(18, data),
        change_gov: find_index(19, data),
        change_culture: find_index(20, data),
        harsh_treatment: find_index(21, data),
        reduce_we: find_index(22, data),
        boost_faction: find_index(23, data),
        raise_war_taxes: find_index(24, data),
        buy_native_advancement: find_index(25, data),
        increse_tariffs: find_index(26, data),
        promote_merc: find_index(27, data),
        decrease_tariffs: find_index(28, data),
        move_trade_port: find_index(29, data),
        create_trade_post: find_index(30, data),
        siege_sorties: find_index(31, data),
        buy_religious_reform: find_index(32, data),
        set_primary_culture: find_index(33, data),
        add_accepted_culture: find_index(34, data),
        remove_accepted_culture: find_index(35, data),
        strengthen_government: find_index(36, data),
        boost_militarization: find_index(37, data),
        artillery_barrage: find_index(39, data),
        establish_siberian_frontier: find_index(40, data),
        government_interaction: find_index(41, data),
        naval_barrage: find_index(43, data),
        create_leader: find_index(46, data),
        enforce_culture: find_index(47, data),
        effect: find_index(48, data),
        minority_expulsion: find_index(49, data),
        other,
    }
}

/// The texts of some strings.
pub open spec fn text_set(v: Seq<String>) -> Set<Seq<char>> {
    Set::new(|s: Seq<char>| exists|k: int| 0 <= k < v.len() && (#[trigger] v[k])@ == s)
}

/// The texts of some tags.
pub open spec fn tag_set(v: Seq<CountryTag>) -> Set<Seq<char>> {
    Set::new(|s: Seq<char>| exists|k: int| 0 <= k < v.len() && (#[trigger] v[k])@ == s)
}

pub open spec fn distinct_texts(v: Seq<String>) -> bool {
    forall|a: int, b: int| 0 <= a < b < v.len() ==> (#[trigger] v[a])@ != (#[trigger] v[b])@
}

pub open spec fn distinct_tags(v: Seq<CountryTag>) -> bool {
    forall|a: int, b: int| 0 <= a < b < v.len() ==> (#[trigger] v[a])@ != (#[trigger] v[b])@
}

/// Adds `s` to `out` unless it is there already.
pub(crate) fn insert_text(out: &mut Vec<String>, s: &String)
    requires
        distinct_texts(old(out)@),
    ensures
        distinct_texts(final(out)@),
        text_set(final(out)@) == text_set(old(out)@).insert(s@),
{
    let ghost before = out@;
    let mut k: usize = 0;
    while k < out.len()
        invariant
            k <= out@.len(),
            out@ == before,
            distinct_texts(before),
            forall|j: int| 0 <= j < k ==> (#[trigger] out@[j])@ != s@,
        decreases out@.len() - k,
    {
        if str_eq(out[k].as_str(), s.as_str()) {
            proof {
                assert(text_set(before).insert(s@) =~= text_set(before));
            }
            return;
        }
        k = k + 1;
    }
    out.push(s.clone());
    proof {
        assert forall|x: Seq<char>| #[trigger] text_set(out@).contains(x) <==> text_set(
            before,
        ).insert(s@).contains(x) by {
            if text_set(before).contains(x) {
                let w = choose|w: int| 0 <= w < before.len() && (#[trigger] before[w])@ == x;
                assert(out@[w] == before[w]);
            }
            if x == s@ {
                assert(out@[out@.len() - 1]@ == s@);
            }
            if text_set(out@).contains(x) {
                let w = choose|w: int| 0 <= w < out@.len() && (#[trigger] out@[w])@ == x;
                if w < before.len() {
                    assert(out@[w] == before[w]);
                }
            }
        }
        assert(text_set(out@) =~= text_set(before).insert(s@));
    }
}

/// Adds `t` to `out` unless it is there already.
pub(crate) fn insert_tag(out: &mut Vec<CountryTag>, t: &CountryTag)
    requires
        distinct_tags(old(out)@),
    ensures
        distinct_tags(final(out)@),
        tag_set(final(out)@) == tag_set(old(out)@).insert(t@),
        old(out)@.len() <= final(out)@.len() <= old(out)@.len() + 1,
        final(out)@.take(old(out)@.len() as int) == old(out)@,
        tag_set(old(out)@).contains(t@) ==> final(out)@ == old(out)@,
        !tag_set(old(out)@).contains(t@) ==> final(out)@.len() == old(out)@.len() + 1
            && final(out)@[old(out)@.len() as int]@ == t@,
{
    let ghost before = out@;
    let mut k: usize = 0;
    while k < out.len()
        invariant
            k <= out@.len(),
            out@ == before,
            distinct_tags(before),
            forall|j: int| 0 <= j < k ==> (#[trigger] out@[j])@ != t@,
        decreases out@.len() - k,
    {
        if out[k].same_as(t) {
            proof {
                assert(tag_set(before).insert(t@) =~= tag_set(before));
                assert(out@.take(before.len() as int) =~= before);
            }
            return;
        }
        k = k + 1;
    }
    proof {
        if tag_set(before).contains(t@) {
            let w = choose|w: int| 0 <= w < before.len() && (#[trigger] before[w])@ == t@;
            assert(out@[w] == before[w]);
        }
    }
    out.push(t.duplicate());
    proof {
        assert forall|x: Seq<char>| #[trigger] tag_set(out@).contains(x) <==> tag_set(
            before,
        ).insert(t@).contains(x) by {
            if tag_set(before).contains(x) {
                let w = choose|w: int| 0 <= w < before.len() && (#[trigger] before[w])@ == x;
                assert(out@[w] == before[w]);
            }
            if x == t@ {
                assert(out@[out@.len() - 1]@ == t@);
            }
            if tag_set(out@).contains(x) {
                let w = choose|w: int| 0 <= w < out@.len() && (#[trigger] out@[w])@ == x;
                if w < before.len() {
                    assert(out@[w] == before[w]);
                }
            }
        }
        assert(tag_set(out@) =~= tag_set(before).insert(t@));
        assert(out@.take(before.len() as int) =~= before);
    }
}

/// The tag changes that the history of country `c` in `save` records up to
/// the end of its play.
pub open spec fn country_changes(save: QuerySave, c: (CountryTag, Country)) -> Seq<
    (Eu4Date, Seq<char>),
> {
    let end = history_end(save, c.0@, c.1);
    history_tag_changes(c.1.history.events@.take(kept_entries(c.1.history.events@, end) as int))
}

/// The tags that country `c` in `save` was played as, in order.
pub open spec fn country_played_tags(save: QuerySave, c: (CountryTag, Country)) -> Seq<Seq<char>> {
    let changes = country_changes(save, c);
    Seq::new(
        changes.len() + 1,
        |j: int| played_stretch(changes, c.0@, save.start_date, history_end(save, c.0@, c.1), j).0,
    )
}

/// The player countries of `save`, in order.
pub open spec fn player_country(save: QuerySave, i: int) -> (CountryTag, Country) {
    save.countries@[player_indices(save.countries@)[i]]
}

/// The names of all the players of `save`.
pub open spec fn all_player_names(save: QuerySave) -> Set<Seq<char>> {
    Set::new(
        |s: Seq<char>|
            exists|i: int|
                0 <= i < player_indices(save.countries@).len() && #[trigger] player_names_of(
                    save.players_countries@,
                    (save.players_countries@.len() / 2) as nat,
                    player_country(save, i).0@,
                    save.multiplayer,
                ).contains(s),
    )
}

/// Every tag that a player country was played as, at any time.
pub open spec fn all_player_tags(save: QuerySave) -> Set<Seq<char>> {
    Set::new(
        |t: Seq<char>|
            exists|i: int|
                0 <= i < player_indices(save.countries@).len() && #[trigger] country_played_tags(save, player_country(save, i)).contains(t),
    )
}

/// Answers questions about a save.
#[derive(Debug)]
pub struct Query {
    save: QuerySave,
}

impl Query {
    pub closed spec fn spec_save(&self) -> QuerySave {
        self.save
    }

    #[verifier::type_invariant]
    closed spec fn inv(&self) -> bool {
        self.save.wf()
    }

    /// The save must have at most one country per tag.
    pub fn from_save(save: QuerySave) -> (q: Query)
        requires
            save.wf(),
        ensures
            q.spec_save() == save,
    {
        Query { save }
    }

    pub fn save(&self) -> (s: &QuerySave)
        ensures
            *s == self.spec_save(),
            s.wf(),
    {
        proof {
            use_type_invariant(self);
        }
        &self.save
    }

    /// Provides a rich structure that contains the following:
    ///
    /// - A list countries that had a player at one point or another
    /// - What country the player is playing
    /// - Whether that player is currently in the session
    /// - The names of the players in the session
    /// - A list of all prior tags that country had been
    pub fn player_histories(&self) -> (r: Vec<PlayerHistory>)
        ensures
            r@.len() == player_indices(self.spec_save().countries@).len(),
            forall|i: int|
                0 <= i < r@.len() ==> history_matches(
                    #[trigger] r@[i],
                    self.spec_save(),
                    player_country(self.spec_save(), i).0,
                    player_country(self.spec_save(), i).1,
                ),
    {
        calc_histories(&self.save)
    }

    /// Returns a set of the names of the players who participated in a playthrough.
    /// May be blank for single player run through where the player is detected as
    /// "Player".
    pub fn player_names(&self) -> (r: Vec<String>)
        ensures
            distinct_texts(r@),
            text_set(r@) == all_player_names(self.spec_save()),
    {
        let hs = self.player_histories();
        let ghost save = self.spec_save();
        let ghost n = (save.players_countries@.len() / 2) as nat;
        let mut out: Vec<String> = Vec::new();
        let mut i: usize = 0;
        proof {
            assert(text_set(out@) =~= Set::<Seq<char>>::empty());
        }
        while i < hs.len()
            invariant
                i <= hs@.len(),
                n == (save.players_countries@.len() / 2) as nat,
                hs@.len() == player_indices(save.countries@).len(),
                forall|k: int|
                    0 <= k < hs@.len() ==> history_matches(
                        #[trigger] hs@[k],
                        save,
                        player_country(save, k).0,
                        player_country(save, k).1,
                    ),
                distinct_texts(out@),
                text_set(out@) == Set::new(
                    |s: Seq<char>|
                        exists|k: int|
                            0 <= k < i && #[trigger] player_names_of(
                                save.players_countries@,
                                n,
                                player_country(save, k).0@,
                                save.multiplayer,
                            ).contains(s),
                ),
            decreases hs@.len() - i,
        {
            let names = &hs[i].player_names;
            let ghost spec_names = player_names_of(
                save.players_countries@,
                n,
                player_country(save, i as int).0@,
                save.multiplayer,
            );
            let ghost done = text_set(out@);
            proof {
                assert(history_matches(
                    hs@[i as int],
                    save,
                    player_country(save, i as int).0,
                    player_country(save, i as int).1,
                ));
                assert(crate::history::names_match(names@, spec_names));
            }
            let mut j: usize = 0;
            while j < names.len()
                invariant
                    j <= names@.len() == spec_names.len(),
                    forall|q: int| 0 <= q < names@.len() ==> (#[trigger] names@[q])@ == spec_names[q],
                    distinct_texts(out@),
                    text_set(out@) == done.union(spec_names.take(j as int).to_set()),
                decreases names@.len() - j,
            {
                insert_text(&mut out, &names[j]);
                proof {
                    assert(spec_names.take(j + 1) =~= spec_names.take(j as int).push(names@[j as int]@));
                    spec_names.take(j as int).lemma_push_to_set_commute(names@[j as int]@);
                    assert(done.union(spec_names.take(j + 1).to_set()) =~= done.union(spec_names.take(j as int).to_set()).insert(names@[j as int]@));
                }
                j = j + 1;
            }
            proof {
                assert(spec_names.take(j as int) =~= spec_names);
                assert forall|s: Seq<char>| #[trigger] text_set(out@).contains(s) <==> (exists|k: int|
                    0 <= k < i + 1 && #[trigger] player_names_of(
                        save.players_countries@,
                        n,
                        player_country(save, k).0@,
                        save.multiplayer,
                    ).contains(s)) by {
                    if spec_names.contains(s) {
                        assert(spec_names.to_set().contains(s));
                    }
                    if spec_names.to_set().contains(s) {
                        assert(spec_names.contains(s));
                    }
                }
                assert(text_set(out@) =~= Set::new(
                    |s: Seq<char>|
                        exists|k: int|
                            0 <= k < i + 1 && #[trigger] player_names_of(
                                save.players_countries@,
                                n,
                                player_country(save, k).0@,
                                save.multiplayer,
                            ).contains(s),
                ));
            }
            i = i + 1;
        }
        proof {
            assert(text_set(out@) =~= all_player_names(save));
        }
        out
    }

    /// Returns all the tags that players touched in a playthrough. Don't rely on this
    /// for accurate calculations as countries form new countries that may have
    /// pre-existed (think of a cilli into croatia run) and relying on this would
    /// meddle up any calculations. Use `player_histories` instead.
    pub fn player_countries(&self) -> (r: Vec<CountryTag>)
        ensures
            distinct_tags(r@),
            tag_set(r@) == all_player_tags(self.spec_save()),
    {
        let hs = self.player_histories();
        let ghost save = self.spec_save();
        let mut out: Vec<CountryTag> = Vec::new();
        let mut i: usize = 0;
        proof {
            assert(tag_set(out@) =~= Set::<Seq<char>>::empty());
        }
        while i < hs.len()
            invariant
                i <= hs@.len(),
                hs@.len() == player_indices(save.countries@).len(),
                forall|k: int|
                    0 <= k < hs@.len() ==> history_matches(
                        #[trigger] hs@[k],
                        save,
                        player_country(save, k).0,
                        player_country(save, k).1,
                    ),
                distinct_tags(out@),
                tag_set(out@) == Set::new(
                    |t: Seq<char>|
                        exists|k: int|
                            0 <= k < i && #[trigger] country_played_tags(save, player_country(save, k)).contains(t),
                ),
            decreases hs@.len() - i,
        {
            let ghost done = tag_set(out@);
            let ghost c = player_country(save, i as int);
            let ghost played = country_played_tags(save, c);
            proof {
                assert(history_matches(hs@[i as int], save, c.0, c.1));
            }
            {
                let tags = &hs[i].played_tags;
                proof {
                    assert forall|q: int| 0 <= q < tags@.len() implies (#[trigger] tags@[q]).tag@
                        == played[q] by {
                        assert(crate::history::played_view(tags@[q]) == played_stretch(
                            country_changes(save, c),
                            c.0@,
                            save.start_date,
                            history_end(save, c.0@, c.1),
                            q,
                        ));
                    }
                }
                let mut j: usize = 0;
                while j < tags.len()
                    invariant
                        j <= tags@.len() == played.len(),
                        forall|q: int| 0 <= q < tags@.len() ==> (#[trigger] tags@[q]).tag@ == played[q],
                        distinct_tags(out@),
                        tag_set(out@) == done.union(played.take(j as int).to_set()),
                    decreases tags@.len() - j,
                {
                    insert_tag(&mut out, &tags[j].tag);
                    proof {
                        assert(played.take(j + 1) =~= played.take(j as int).push(tags@[j as int].tag@));
                        played.take(j as int).lemma_push_to_set_commute(tags@[j as int].tag@);
                        assert(done.union(played.take(j + 1).to_set()) =~= done.union(
                            played.take(j as int).to_set(),
                        ).insert(tags@[j as int].tag@));
                    }
                    j = j + 1;
                }
                proof {
                    assert(played.take(j as int) =~= played);
                    assert forall|t: Seq<char>| #[trigger] tag_set(out@).contains(t) <==> (exists|k: int|
                        0 <= k < i + 1 && #[trigger] country_played_tags(save, player_country(save, k)).contains(t)) by {
                        if played.contains(t) {
                            assert(played.to_set().contains(t));
                        }
                        if played.to_set().contains(t) {
                            assert(played.contains(t));
                        }
                    }
                }
            }
            proof {
                assert(tag_set(out@) =~= Set::new(
                    |t: Seq<char>|
                        exists|k: int|
                            0 <= k < i + 1 && #[trigger] country_played_tags(save, player_country(save, k)).contains(t),
                ));
            }
            i = i + 1;
        }
        proof {
            assert(tag_set(out@) =~= all_player_tags(save));
        }
        out
    }

    /// Return the starting country in single player playthroughs. If playing in multiplayer or if
    /// the starting country can't be determined then none is returned.
    pub fn starting_country(&self) -> (r: Option<CountryTag>)
        ensures
            !self.spec_save().multiplayer && player_indices(self.spec_save().countries@).len() == 1
                ==> r is Some && r->0@ == country_played_tags(
                self.spec_save(),
                player_country(self.spec_save(), 0),
            )[0],
            self.spec_save().multiplayer || player_indices(self.spec_save().countries@).len() != 1
                ==> r is None,
    {
        if self.save.multiplayer {
            return None;
        }
        let hs = self.player_histories();
        if hs.len() == 1 {
            let ghost save = self.spec_save();
            let ghost c = player_country(save, 0);
            proof {
                assert(history_matches(hs@[0], save, c.0, c.1));
                assert(crate::history::played_view(hs@[0].played_tags@[0]) == played_stretch(
                    country_changes(save, c),
                    c.0@,
                    save.start_date,
                    history_end(save, c.0@, c.1),
                    0,
                ));
            }
            Some(hs[0].played_tags[0].tag.duplicate())
        } else {
            None
        }
    }

    /// The colour of a country, as `#rrggbb`.
    pub fn country_color_to_hex(&self, country: &Country) -> (r: String)
        requires
            country.colors.country_color@.len() >= 3,
        ensures
            r@ == seq!['#'] + hex_byte(country.colors.country_color@[0]) + hex_byte(
                country.colors.country_color@[1],
            ) + hex_byte(country.colors.country_color@[2]),
    {
        let colors = &country.colors.country_color;
        let mut out = String::from_str("#");
        proof {
            reveal_strlit("#");
        }
        push_hex_byte(&mut out, colors[0]);
        push_hex_byte(&mut out, colors[1]);
        push_hex_byte(&mut out, colors[2]);
        out
    }

    /// The colour of the country with the tag, as `#rrggbb`, if there is
    /// such a country.
    pub fn country_tag_hex_color(&self, country_tag: &CountryTag) -> (r: Option<String>)
        requires
            forall|k: int|
                0 <= k < self.spec_save().countries@.len() && (#[trigger] self.spec_save().countries@[k]).0@
                    == country_tag@ ==> self.spec_save().countries@[k].1.colors.country_color@.len() >= 3,
        ensures
            match country_index(self.spec_save().countries@, country_tag@) {
                None => r is None,
                Some(k) => r is Some && r->0@ == seq!['#'] + hex_byte(
                    self.spec_save().countries@[k].1.colors.country_color@[0],
                ) + hex_byte(self.spec_save().countries@[k].1.colors.country_color@[1]) + hex_byte(
                    self.spec_save().countries@[k].1.colors.country_color@[2],
                ),
            },
    {
        match find_country(&self.save.countries, country_tag) {
            None => None,
            Some(k) => {
                proof {
                    assert(self.save.countries@[k as int].0@ == country_tag@);
                }
                Some(self.country_color_to_hex(&self.save.countries[k].1))
            },
        }
    }

    /// Mana spent by a country in each of the three categories.
    pub fn country_mana_breakdown(&self, country: &Country) -> (u: CountryManaUsage)
        requires
            mana_sums_fit(country.adm_spent_indexed@),
            mana_sums_fit(country.dip_spent_indexed@),
            mana_sums_fit(country.mil_spent_indexed@),
        ensures
            u.adm == mana_spent(country.adm_spent_indexed@),
            u.dip == mana_spent(country.dip_spent_indexed@),
            u.mil == mana_spent(country.mil_spent_indexed@),
    {
        CountryManaUsage {
            adm: mana_spent_indexed(&country.adm_spent_indexed),
            dip: mana_spent_indexed(&country.dip_spent_indexed),
            mil: mana_spent_indexed(&country.mil_spent_indexed),
        }
    }
}

/// The position of the first country with the tag.
pub open spec fn country_index(countries: Seq<(CountryTag, Country)>, tag: Seq<char>) -> Option<int>
    decreases countries.len(),
{
    if countries.len() == 0 {
        None
    } else if countries[0].0@ == tag {
        Some(0)
    } else {
        match country_index(countries.skip(1), tag) {
            Some(k) => Some(k + 1),
            None => None,
        }
    }
}

/// The position of the first country with the tag.
pub fn find_country(countries: &[(CountryTag, Country)], tag: &CountryTag) -> (r: Option<usize>)
    ensures
        r is None <==> country_index(countries@, tag@) is None,
        r matches Some(k) ==> country_index(countries@, tag@) == Some(k as int),
        r matches Some(k) ==> k < countries@.len() && countries@[k as int].0@ == tag@,
{
    let mut k: usize = 0;
    proof {
        assert(countries@.skip(0) =~= countries@);
    }
    while k < countries.len()
        invariant
            k <= countries@.len(),
            country_index(countries@, tag@) == (match country_index(countries@.skip(k as int), tag@) {
                Some(j) => Some(j + k),
                None => None::<int>,
            }),
        decreases countries@.len() - k,
    {
        proof {
            assert(countries@.skip(k as int).skip(1) =~= countries@.skip(k + 1));
            assert(countries@.skip(k as int)[0] == countries@[k as int]);
        }
        if countries[k].0.same_as(tag) {
            return Some(k);
        }
        k = k + 1;
    }
    proof {
        assert(countries@.skip(k as int) =~= Seq::<(CountryTag, Country)>::empty());
    }
    None
}

} // verus!
