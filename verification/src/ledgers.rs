//! Yearly statistics of the countries that a query selects.
use crate::country_tag::CountryTag;
use crate::filter::query_set;
use crate::models::{LedgerData, LedgerDatum};
use crate::query::{all_player_tags, tag_set, text_set, AnnualLedgers, CountryQuery, Query};
use vstd::prelude::*;

verus! {

/// The entries of `ledger` whose country is in `set`, in order.
pub open spec fn ledger_filter(ledger: Seq<LedgerDatum>, set: Set<Seq<char>>) -> Seq<LedgerDatum>
    decreases ledger.len(),
{
    if ledger.len() == 0 {
        Seq::empty()
    } else {
        let rest = ledger_filter(ledger.drop_last(), set);
        if set.contains(ledger.last().name@) {
            rest.push(ledger.last())
        } else {
            rest
        }
    }
}

/// The last entry of `ledger` for the country `name`.
pub open spec fn last_named(ledger: Seq<LedgerDatum>, name: Seq<char>) -> Option<LedgerDatum>
    decreases ledger.len(),
{
    if ledger.len() == 0 {
        None
    } else if ledger.last().name@ == name {
        Some(ledger.last())
    } else {
        last_named(ledger.drop_last(), name)
    }
}

/// Whether some pair of `data` is for the year.
pub open spec fn has_year(data: Seq<(u16, i32)>, year: u16) -> bool {
    exists|k: int| 0 <= k < data.len() && (#[trigger] data[k]).0 == year
}

/// The years of `income`, each once and in the order they first appear,
/// that `have` has no value for.
pub open spec fn missing_years(income: Seq<(u16, i32)>, have: Seq<(u16, i32)>) -> Seq<u16>
    decreases income.len(),
{
    if income.len() == 0 {
        Seq::empty()
    } else {
        let rest = missing_years(income.drop_last(), have);
        let y = income.last().0;
        if has_year(have, y) || has_year(income.drop_last(), y) {
            rest
        } else {
            rest.push(y)
        }
    }
}

/// The values of a country's entry once the years with income but no value
/// are given the value zero, after the values it has.
pub open spec fn filled_data(entry: LedgerDatum, income: Seq<LedgerDatum>) -> Seq<(u16, i32)> {
    match last_named(income, entry.name@) {
        None => entry.data@,
        Some(inc) => entry.data@ + missing_years(inc.data@, entry.data@).map_values(
            |y: u16| (y, 0i32),
        ),
    }
}

/// Whether `v` holds the entries `w`, country by country.
pub open spec fn ledgers_match(v: Seq<LedgerDatum>, w: Seq<LedgerDatum>) -> bool {
    &&& v.len() == w.len()
    &&& forall|i: int|
        0 <= i < v.len() ==> (#[trigger] v[i]).name@ == w[i].name@ && v[i].data@ == w[i].data@
}

/// Whether `v` holds the entries `w`, each filled in with the years of
/// `income`.
pub open spec fn ledgers_filled(v: Seq<LedgerDatum>, w: Seq<LedgerDatum>, income: Seq<LedgerDatum>) -> bool {
    &&& v.len() == w.len()
    &&& forall|i: int|
        0 <= i < v.len() ==> (#[trigger] v[i]).name@ == w[i].name@ && v[i].data@ == filled_data(
            w[i],
            income,
        )
}

fn copy_data(data: &Vec<(u16, i32)>) -> (r: Vec<(u16, i32)>)
    ensures
        r@ == data@,
{
    let mut out: Vec<(u16, i32)> = Vec::new();
    let mut k: usize = 0;
    while k < data.len()
        invariant
            k <= data@.len(),
            out@ == data@.take(k as int),
        decreases data@.len() - k,
    {
        out.push(data[k]);
        proof {
            assert(data@.take(k + 1) =~= data@.take(k as int).push(data@[k as int]));
        }
        k = k + 1;
    }
    proof {
        assert(data@.take(k as int) =~= data@);
    }
    out
}

fn copy_datum(d: &LedgerDatum) -> (r: LedgerDatum)
    ensures
        r.name@ == d.name@,
        r.data@ == d.data@,
{
    LedgerDatum { name: d.name.duplicate(), data: copy_data(&d.data) }
}

/// Whether one of the tags is `t`.
fn has_tag(v: &Vec<CountryTag>, t: &CountryTag) -> (r: bool)
    ensures
        r == tag_set(v@).contains(t@),
{
    let mut k: usize = 0;
    while k < v.len()
        invariant
            k <= v@.len(),
            forall|j: int| 0 <= j < k ==> (#[trigger] v@[j])@ != t@,
        decreases v@.len() - k,
    {
        if v[k].same_as(t) {
            return true;
        }
        k = k + 1;
    }
    false
}

/// The entries of `data` for the countries of `filter_set`, in order.
pub fn ledger_statistics(filter_set: &Vec<CountryTag>, data: &LedgerData) -> (r: Vec<LedgerDatum>)
    ensures
        ledgers_match(r@, ledger_filter(data.ledger@, tag_set(filter_set@))),
{
    let mut out: Vec<LedgerDatum> = Vec::new();
    let mut k: usize = 0;
    proof {
        assert(data.ledger@.take(0) =~= Seq::<LedgerDatum>::empty());
    }
    while k < data.ledger.len()
        invariant
            k <= data.ledger@.len(),
            ledgers_match(out@, ledger_filter(data.ledger@.take(k as int), tag_set(filter_set@))),
        decreases data.ledger@.len() - k,
    {
        proof {
            assert(data.ledger@.take(k + 1).drop_last() =~= data.ledger@.take(k as int));
            assert(data.ledger@.take(k + 1).last() == data.ledger@[k as int]);
        }
        if has_tag(filter_set, &data.ledger[k].name) {
            out.push(copy_datum(&data.ledger[k]));
        }
        k = k + 1;
    }
    proof {
        assert(data.ledger@.take(k as int) =~= data.ledger@);
    }
    out
}

/// Whether one of the pairs is for the year.
fn has_year_in(data: &Vec<(u16, i32)>, upto: usize, year: u16) -> (r: bool)
    requires
        upto <= data@.len(),
    ensures
        r == has_year(data@.take(upto as int), year),
{
    let mut k: usize = 0;
    while k < upto
        invariant
            k <= upto <= data@.len(),
            forall|j: int| 0 <= j < k ==> (#[trigger] data@[j]).0 != year,
        decreases upto - k,
    {
        if data[k].0 == year {
            proof {
                assert(data@.take(upto as int)[k as int] == data@[k as int]);
            }
            return true;
        }
        k = k + 1;
    }
    proof {
        if has_year(data@.take(upto as int), year) {
            let w = choose|w: int| 0 <= w < upto && (#[trigger] data@.take(upto as int)[w]).0 == year;
            assert(data@.take(upto as int)[w] == data@[w]);
        }
    }
    false
}

/// The last entry of `ledger` for the country `name`.
fn find_last_named(ledger: &Vec<LedgerDatum>, name: &CountryTag) -> (r: Option<usize>)
    ensures
        match r {
            None => last_named(ledger@, name@) is None,
            Some(k) => k < ledger@.len() && last_named(ledger@, name@) == Some(ledger@[k as int]),
        },
{
    let mut k: usize = ledger.len();
    proof {
        assert(ledger@.take(k as int) =~= ledger@);
    }
    while k > 0
        invariant
            k <= ledger@.len(),
            last_named(ledger@, name@) == last_named(ledger@.take(k as int), name@),
        decreases k,
    {
        proof {
            assert(ledger@.take(k as int).drop_last() =~= ledger@.take(k - 1));
            assert(ledger@.take(k as int).last() == ledger@[k - 1]);
        }
        if ledger[k - 1].name.same_as(name) {
            return Some(k - 1);
        }
        k = k - 1;
    }
    None
}

/// The entry with the years of income it lacks added as zero values.
fn fill_datum(entry: &LedgerDatum, income: &Vec<LedgerDatum>) -> (r: LedgerDatum)
    ensures
        r.name@ == entry.name@,
        r.data@ == filled_data(*entry, income@),
{
    let mut data = copy_data(&entry.data);
    match find_last_named(income, &entry.name) {
        None => {},
        Some(n) => {
            let inc = &income[n].data;
            let ghost have = entry.data@;
            let mut j: usize = 0;
            proof {
                assert(inc@.take(0) =~= Seq::<(u16, i32)>::empty());
                assert(data@ =~= have + missing_years(inc@.take(0), have).map_values(
                    |y: u16| (y, 0i32),
                ));
            }
            while j < inc.len()
                invariant
                    j <= inc@.len(),
                    have == entry.data@,
                    entry.data@.len() <= data@.len(),
                    data@ == have + missing_years(inc@.take(j as int), have).map_values(
                        |y: u16| (y, 0i32),
                    ),
                decreases inc@.len() - j,
            {
                let y = inc[j].0;
                let ghost prev = missing_years(inc@.take(j as int), have);
                proof {
                    assert(inc@.take(j + 1).drop_last() =~= inc@.take(j as int));
                    assert(inc@.take(j + 1).last() == inc@[j as int]);
                    assert(entry.data@.take(entry.data@.len() as int) =~= entry.data@);
                }
                let seen_have = has_year_in(&entry.data, entry.data.len(), y);
                let seen_before = has_year_in(inc, j, y);
                if !seen_have && !seen_before {
                    data.push((y, 0i32));
                    proof {
                        assert(prev.push(y).map_values(|y: u16| (y, 0i32)) =~= prev.map_values(
                            |y: u16| (y, 0i32),
                        ).push((y, 0i32)));
                    }
                }
                j = j + 1;
            }
            proof {
                assert(inc@.take(j as int) =~= inc@);
            }
        },
    }
    LedgerDatum { name: entry.name.duplicate(), data }
}

fn fill_all(entries: &Vec<LedgerDatum>, income: &Vec<LedgerDatum>) -> (r: Vec<LedgerDatum>)
    ensures
        ledgers_filled(r@, entries@, income@),
{
    let mut out: Vec<LedgerDatum> = Vec::new();
    let mut k: usize = 0;
    while k < entries.len()
        invariant
            k <= entries@.len(),
            ledgers_filled(out@, entries@.take(k as int), income@),
        decreases entries@.len() - k,
    {
        out.push(fill_datum(&entries[k], income));
        proof {
            assert forall|i: int| 0 <= i < out@.len() implies (#[trigger] out@[i]).name@
                == entries@.take(k + 1)[i].name@ && out@[i].data@ == filled_data(
                entries@.take(k + 1)[i],
                income@,
            ) by {
                assert(entries@.take(k + 1)[i] == entries@[i]);
                if i < k {
                    assert(entries@.take(k as int)[i] == entries@[i]);
                }
            }
        }
        k = k + 1;
    }
    proof {
        assert(entries@.take(k as int) =~= entries@);
    }
    out
}

impl Query {
    /// The yearly score, inflation, size and income of the countries that
    /// the queries select. The game writes no score or inflation for the
    /// years a country had none, so a country's score and inflation get the
    /// value zero for each year that it has income and no value.
    pub fn annual_ledgers(
        &self,
        query: &[CountryQuery],
        includes: &[String],
        excludes: &[String],
    ) -> (r: AnnualLedgers)
        ensures
            ({
                let save = self.spec_save();
                let fs = query_set(save.countries@, all_player_tags(save), query@).union(
                    text_set(includes@),
                ).difference(text_set(excludes@));
                let income = ledger_filter(save.income_statistics.ledger@, fs);
                &&& ledgers_match(r.size@, ledger_filter(save.nation_size_statistics.ledger@, fs))
                &&& ledgers_match(r.income@, income)
                &&& ledgers_filled(r.score@, ledger_filter(save.score_statistics.ledger@, fs), income)
                &&& ledgers_filled(
                    r.inflation@,
                    ledger_filter(save.inflation_statistics.ledger@, fs),
                    income,
                )
            }),
    {
        let filter_set = self.filter_countries(query, includes, excludes);
        let save = self.save();
        let size = ledger_statistics(&filter_set, &save.nation_size_statistics);
        let score = ledger_statistics(&filter_set, &save.score_statistics);
        let inflation = ledger_statistics(&filter_set, &save.inflation_statistics);
        let income = ledger_statistics(&filter_set, &save.income_statistics);
        let ghost fs = tag_set(filter_set@);
        proof {
            lemma_match_filled(
                score@,
                ledger_filter(save.score_statistics.ledger@, fs),
                income@,
                ledger_filter(save.income_statistics.ledger@, fs),
            );
            lemma_match_filled(
                inflation@,
                ledger_filter(save.inflation_statistics.ledger@, fs),
                income@,
                ledger_filter(save.income_statistics.ledger@, fs),
            );
        }
        let adjusted_scores = fill_all(&score, &income);
        let adjusted_inflation = fill_all(&inflation, &income);
        AnnualLedgers { score: adjusted_scores, inflation: adjusted_inflation, size, income }
    }
}

/// Filling copied entries gives what filling the entries they copy gives.
proof fn lemma_match_filled(
    v: Seq<LedgerDatum>,
    w: Seq<LedgerDatum>,
    vi: Seq<LedgerDatum>,
    wi: Seq<LedgerDatum>,
)
    requires
        ledgers_match(v, w),
        ledgers_match(vi, wi),
    ensures
        forall|i: int| 0 <= i < v.len() ==> filled_data(#[trigger] v[i], vi) == filled_data(w[i], wi),
{
    assert forall|i: int| 0 <= i < v.len() implies filled_data(#[trigger] v[i], vi) == filled_data(
        w[i],
        wi,
    ) by {
        lemma_last_named_match(vi, wi, v[i].name@);
    }
}

proof fn lemma_last_named_match(vi: Seq<LedgerDatum>, wi: Seq<LedgerDatum>, name: Seq<char>)
    requires
        ledgers_match(vi, wi),
    ensures
        match (last_named(vi, name), last_named(wi, name)) {
            (None, None) => true,
            (Some(a), Some(b)) => a.data@ == b.data@,
            _ => false,
        },
    decreases vi.len(),
{
    if vi.len() > 0 {
        assert(vi.last().name@ == wi.last().name@);
        if vi.last().name@ != name {
            assert forall|i: int| 0 <= i < vi.drop_last().len() implies (#[trigger] vi.drop_last()[i]).name@
                == wi.drop_last()[i].name@ && vi.drop_last()[i].data@ == wi.drop_last()[i].data@ by {
                assert(vi.drop_last()[i] == vi[i]);
                assert(wi.drop_last()[i] == wi[i]);
            }
            lemma_last_named_match(vi.drop_last(), wi.drop_last(), name);
        }
    }
}

/// Filling keeps the values a country has, and leaves no year of its
/// income without a value.
pub proof fn law_filled_covers_income_years(entry: LedgerDatum, income: Seq<LedgerDatum>, y: u16)
    ensures
        filled_data(entry, income).take(entry.data@.len() as int) == entry.data@,
        (last_named(income, entry.name@) matches Some(inc) && has_year(inc.data@, y)) ==> has_year(
            filled_data(entry, income),
            y,
        ),
{
    let f = filled_data(entry, income);
    assert(f.take(entry.data@.len() as int) =~= entry.data@);
    match last_named(income, entry.name@) {
        Some(inc) => {
            if has_year(inc.data@, y) {
                if has_year(entry.data@, y) {
                    let k = choose|k: int| 0 <= k < entry.data@.len() && (#[trigger] entry.data@[k]).0 == y;
                    assert(f[k] == entry.data@[k]);
                } else {
                    lemma_missing_years_cover(inc.data@, entry.data@, y);
                    let m = missing_years(inc.data@, entry.data@);
                    let j = choose|j: int| 0 <= j < m.len() && m[j] == y;
                    let zeros = m.map_values(|x: u16| (x, 0i32));
                    assert(f[entry.data@.len() + j] == zeros[j]);
                    assert(f[entry.data@.len() + j].0 == y);
                }
            }
        },
        None => {},
    }
}

/// Every year of `income` without a value in `have` is among the missing
/// years.
proof fn lemma_missing_years_cover(income: Seq<(u16, i32)>, have: Seq<(u16, i32)>, y: u16)
    requires
        has_year(income, y),
        !has_year(have, y),
    ensures
        missing_years(income, have).contains(y),
    decreases income.len(),
{
    let init = income.drop_last();
    if has_year(init, y) {
        let k = choose|k: int| 0 <= k < init.len() && (#[trigger] init[k]).0 == y;
        lemma_missing_years_cover(init, have, y);
        let m = missing_years(init, have);
        let j = choose|j: int| 0 <= j < m.len() && m[j] == y;
        if income.last().0 == y || has_year(have, income.last().0) || has_year(init, income.last().0) {
            assert(missing_years(income, have) == m);
        } else {
            assert(missing_years(income, have)[j] == y);
        }
    } else {
        let k = choose|k: int| 0 <= k < income.len() && (#[trigger] income[k]).0 == y;
        if k < income.len() - 1 {
            assert(init[k] == income[k]);
        }
        assert(income.last().0 == y);
        let m = missing_years(init, have);
        assert(missing_years(income, have) == m.push(y));
        assert(missing_years(income, have)[m.len() as int] == y);
    }
}

} // verus!
