//! Which countries players played, and for how long.
use crate::country_tag::CountryTag;
use crate::date::Eu4Date;
use crate::models::{Country, CountryEvent, CountryEvents};
use crate::query::QuerySave;
use crate::strings::str_eq;
use vstd::prelude::*;

verus! {

/// A stretch of a playthrough spent as one tag.
#[derive(Debug)]
pub struct CountryPlayed {
    pub tag: CountryTag,
    pub start: Eu4Date,
    pub end: Eu4Date,
}

/// The tag changes recorded among the events of one date, in order, as
/// (date, tag changed from).
pub open spec fn event_tag_changes(date: Eu4Date, events: Seq<CountryEvent>) -> Seq<
    (Eu4Date, Seq<char>),
>
    decreases events.len(),
{
    if events.len() == 0 {
        Seq::empty()
    } else {
        let rest = event_tag_changes(date, events.drop_last());
        match events.last() {
            CountryEvent::ChangedTagFrom(t) => rest.push((date, t@)),
            _ => rest,
        }
    }
}

/// The tag changes of a country's dated history, in order.
pub open spec fn history_tag_changes(entries: Seq<(Eu4Date, CountryEvents)>) -> Seq<
    (Eu4Date, Seq<char>),
>
    decreases entries.len(),
{
    if entries.len() == 0 {
        Seq::empty()
    } else {
        history_tag_changes(entries.drop_last()) + event_tag_changes(
            entries.last().0,
            entries.last().1.0@,
        )
    }
}

/// How many history entries remain once the entries at the end dated after
/// `end` are left out.
pub open spec fn kept_entries(entries: Seq<(Eu4Date, CountryEvents)>, end: Eu4Date) -> nat
    decreases entries.len(),
{
    if entries.len() == 0 {
        0
    } else if end.spec_before(entries.last().0) {
        kept_entries(entries.drop_last(), end)
    } else {
        entries.len()
    }
}

/// The stretches of play that `changes` imply for a country now tagged
/// `tag`: stretch `i` is played as the tag that change `i` left, from the
/// previous change (or `start`) up to change `i`; the last stretch is played
/// as `tag`, from the last change (or `start`) up to `end`.
pub open spec fn played_stretch(
    changes: Seq<(Eu4Date, Seq<char>)>,
    tag: Seq<char>,
    start: Eu4Date,
    end: Eu4Date,
    i: int,
) -> (Seq<char>, Eu4Date, Eu4Date) {
    let n = changes.len() as int;
    (
        if i < n {
            changes[i].1
        } else {
            tag
        },
        if i == 0 {
            start
        } else {
            changes[i - 1].0
        },
        if i < n {
            changes[i].0
        } else {
            end
        },
    )
}

pub open spec fn played_view(p: CountryPlayed) -> (Seq<char>, Eu4Date, Eu4Date) {
    (p.tag@, p.start, p.end)
}

/// The tag changes of `entries` up to `end`, in order.
pub fn tag_changes_until(entries: &[(Eu4Date, CountryEvents)], end: Eu4Date) -> (r: Vec<
    (Eu4Date, CountryTag),
>)
    ensures
        r@.len() == history_tag_changes(entries@.take(kept_entries(entries@, end) as int)).len(),
        forall|i: int|
            0 <= i < r@.len() ==> (#[trigger] r@[i]).0 == history_tag_changes(
                entries@.take(kept_entries(entries@, end) as int),
            )[i].0 && r@[i].1@ == history_tag_changes(
                entries@.take(kept_entries(entries@, end) as int),
            )[i].1,
{
    let mut kept: usize = entries.len();
    proof {
        assert(entries@.take(kept as int) =~= entries@);
    }
    while kept > 0 && end.is_before(&entries[kept - 1].0)
        invariant
            kept <= entries@.len(),
            kept_entries(entries@.take(kept as int), end) == kept_entries(entries@, end),
        decreases kept,
    {
        proof {
            assert(entries@.take(kept as int).drop_last() =~= entries@.take(kept - 1));
        }
        kept = kept - 1;
    }
    proof {
        if kept > 0 {
            assert(entries@.take(kept as int).last() == entries@[kept - 1]);
        }
    }
    let ghost target = history_tag_changes(entries@.take(kept as int));
    let mut out: Vec<(Eu4Date, CountryTag)> = Vec::new();
    let mut i: usize = 0;
    proof {
        assert(entries@.take(0) =~= Seq::<(Eu4Date, CountryEvents)>::empty());
    }
    while i < kept
        invariant
            i <= kept <= entries@.len(),
            target == history_tag_changes(entries@.take(kept as int)),
            out@.len() == history_tag_changes(entries@.take(i as int)).len(),
            forall|j: int|
                0 <= j < out@.len() ==> (#[trigger] out@[j]).0 == history_tag_changes(
                    entries@.take(i as int),
                )[j].0 && out@[j].1@ == history_tag_changes(entries@.take(i as int))[j].1,
        decreases kept - i,
    {
        let date = entries[i].0;
        let events = &entries[i].1.0;
        let ghost before = history_tag_changes(entries@.take(i as int));
        let ghost base = out@.len();
        proof {
            assert(entries@.take(i + 1).drop_last() =~= entries@.take(i as int));
            assert(entries@.take(i + 1).last() == entries@[i as int]);
            assert(events@.take(0) =~= Seq::<CountryEvent>::empty());
        }
        let mut k: usize = 0;
        while k < events.len()
            invariant
                k <= events@.len(),
                base == before.len(),
                out@.len() == before.len() + event_tag_changes(date, events@.take(k as int)).len(),
                forall|j: int|
                    0 <= j < out@.len() ==> (#[trigger] out@[j]).0 == (before + event_tag_changes(
                        date,
                        events@.take(k as int),
                    ))[j].0 && out@[j].1@ == (before + event_tag_changes(
                        date,
                        events@.take(k as int),
                    ))[j].1,
            decreases events@.len() - k,
        {
            let ghost prev_changes = event_tag_changes(date, events@.take(k as int));
            proof {
                assert(events@.take(k + 1).drop_last() =~= events@.take(k as int));
                assert(events@.take(k + 1).last() == events@[k as int]);
            }
            match &events[k] {
                CountryEvent::ChangedTagFrom(t) => {
                    out.push((date, t.duplicate()));
                    proof {
                        assert(before + prev_changes.push((date, t@)) =~= (before
                            + prev_changes).push((date, t@)));
                    }
                },
                _ => {},
            }
            k = k + 1;
        }
        proof {
            assert(events@.take(k as int) =~= events@);
        }
        i = i + 1;
    }
    out
}

/// The stretches of play of a country tagged `tag` at `end`, traced back
/// through its tag changes to the start of the game.
pub fn trace_country(
    start: Eu4Date,
    tag: &CountryTag,
    history: &[(Eu4Date, CountryEvents)],
    end: Eu4Date,
) -> (r: Vec<CountryPlayed>)
    ensures
        played_matches(
            r@,
            history_tag_changes(history@.take(kept_entries(history@, end) as int)),
            tag@,
            start,
            end,
        ),
{
    let changes = tag_changes_until(history, end);
    let ghost target = history_tag_changes(history@.take(kept_entries(history@, end) as int));
    let n = changes.len();
    let mut played: Vec<CountryPlayed> = Vec::new();
    let mut i: usize = 0;
    while i < n
        invariant
            n == changes@.len() == target.len(),
            i <= n,
            played@.len() == i,
            forall|j: int|
                0 <= j < changes@.len() ==> (#[trigger] changes@[j]).0 == target[j].0
                    && changes@[j].1@ == target[j].1,
            forall|j: int|
                0 <= j < i ==> played_view(#[trigger] played@[j]) == played_stretch(
                    target,
                    tag@,
                    start,
                    end,
                    j,
                ),
        decreases n - i,
    {
        let s = if i == 0 {
            start
        } else {
            changes[i - 1].0
        };
        played.push(CountryPlayed { tag: changes[i].1.duplicate(), start: s, end: changes[i].0 });
        i = i + 1;
    }
    let s = if n == 0 {
        start
    } else {
        changes[n - 1].0
    };
    played.push(CountryPlayed { tag: tag.duplicate(), start: s, end });
    played
}

/// Whether `p` holds the stretches of play that `changes` imply.
pub open spec fn played_matches(
    p: Seq<CountryPlayed>,
    changes: Seq<(Eu4Date, Seq<char>)>,
    tag: Seq<char>,
    start: Eu4Date,
    end: Eu4Date,
) -> bool {
    &&& p.len() == changes.len() + 1
    &&& forall|i: int|
        0 <= i < p.len() ==> played_view(#[trigger] p[i]) == played_stretch(
            changes,
            tag,
            start,
            end,
            i,
        )
}

/// What happened to a province at a date.
#[derive(Debug, Clone)]
pub enum ProvinceChange {
    /// The province passed to this owner.
    Owner(CountryTag),
    /// The province came under the control of this country.
    Controller(CountryTag),
    /// The province took this religion.
    Religion(String),
    /// A yes or no value was set under this key, such as a building.
    Flag(String, bool),
    /// A base value changed (these values are fractional, and kept out).
    Other,
}

/// A province's history as the queries read it: its first owner, if any,
/// the keys of the yes or no values it started with, the dated events, and
/// the buildings it has now.
#[derive(Debug, Clone)]
pub struct ProvinceOwnership {
    pub owner: Option<CountryTag>,
    pub initial_flags: Vec<String>,
    pub events: Vec<(Eu4Date, Vec<ProvinceChange>)>,
    pub buildings: Vec<String>,
}

pub open spec fn tag_opt_view(t: Option<CountryTag>) -> Option<Seq<char>> {
    match t {
        Some(x) => Some(x@),
        None => None,
    }
}

/// The owner changes among the events of one date, in order.
pub open spec fn event_owner_changes(date: Eu4Date, events: Seq<ProvinceChange>) -> Seq<
    (Eu4Date, Seq<char>),
>
    decreases events.len(),
{
    if events.len() == 0 {
        Seq::empty()
    } else {
        let rest = event_owner_changes(date, events.drop_last());
        match events.last() {
            ProvinceChange::Owner(t) => rest.push((date, t@)),
            _ => rest,
        }
    }
}

/// The owner changes of a province's dated history, in order.
pub open spec fn owner_changes(entries: Seq<(Eu4Date, Vec<ProvinceChange>)>) -> Seq<
    (Eu4Date, Seq<char>),
>
    decreases entries.len(),
{
    if entries.len() == 0 {
        Seq::empty()
    } else {
        owner_changes(entries.drop_last()) + event_owner_changes(
            entries.last().0,
            entries.last().1@,
        )
    }
}

/// The later of a date and an optional date.
pub open spec fn later_opt(a: Option<Eu4Date>, d: Eu4Date) -> Option<Eu4Date> {
    match a {
        None => Some(d),
        Some(x) => Some(
            if x.spec_before(d) {
                d
            } else {
                x
            },
        ),
    }
}

/// The later of two optional dates.
pub open spec fn merge_latest(a: Option<Eu4Date>, b: Option<Eu4Date>) -> Option<Eu4Date> {
    match b {
        None => a,
        Some(d) => later_opt(a, d),
    }
}

/// The last date at which `tag` still owned a province that started with
/// `initial` and changed owner as `changes` say: the start of the game if
/// it owned it first, and each date at which it handed it over.
pub open spec fn province_latest(
    initial: Option<Seq<char>>,
    changes: Seq<(Eu4Date, Seq<char>)>,
    tag: Seq<char>,
    start: Eu4Date,
) -> Option<Eu4Date>
    decreases changes.len(),
{
    if changes.len() == 0 {
        if initial == Some(tag) {
            Some(start)
        } else {
            None
        }
    } else {
        let k = changes.len() - 1;
        let rest = province_latest(initial, changes.drop_last(), tag, start);
        let prev = if k == 0 {
            initial
        } else {
            Some(changes[k - 1].1)
        };
        if prev == Some(tag) {
            later_opt(rest, changes[k].0)
        } else {
            rest
        }
    }
}

/// The last date at which `tag` owned any of the provinces.
pub open spec fn latest_ownership(
    provinces: Seq<ProvinceOwnership>,
    tag: Seq<char>,
    start: Eu4Date,
) -> Option<Eu4Date>
    decreases provinces.len(),
{
    if provinces.len() == 0 {
        None
    } else {
        merge_latest(
            latest_ownership(provinces.drop_last(), tag, start),
            province_latest(
                tag_opt_view(provinces.last().owner),
                owner_changes(provinces.last().events@),
                tag,
                start,
            ),
        )
    }
}

/// The owner changes of a province's history, in order.
fn collect_owner_changes(entries: &[(Eu4Date, Vec<ProvinceChange>)]) -> (r: Vec<
    (Eu4Date, CountryTag),
>)
    ensures
        r@.len() == owner_changes(entries@).len(),
        forall|i: int|
            0 <= i < r@.len() ==> (#[trigger] r@[i]).0 == owner_changes(entries@)[i].0
                && r@[i].1@ == owner_changes(entries@)[i].1,
{
    let mut out: Vec<(Eu4Date, CountryTag)> = Vec::new();
    let mut i: usize = 0;
    proof {
        assert(entries@.take(0) =~= Seq::<(Eu4Date, Vec<ProvinceChange>)>::empty());
    }
    while i < entries.len()
        invariant
            i <= entries@.len(),
            out@.len() == owner_changes(entries@.take(i as int)).len(),
            forall|j: int|
                0 <= j < out@.len() ==> (#[trigger] out@[j]).0 == owner_changes(
                    entries@.take(i as int),
                )[j].0 && out@[j].1@ == owner_changes(entries@.take(i as int))[j].1,
        decreases entries@.len() - i,
    {
        let date = entries[i].0;
        let events = &entries[i].1;
        let ghost before = owner_changes(entries@.take(i as int));
        proof {
            assert(entries@.take(i + 1).drop_last() =~= entries@.take(i as int));
            assert(entries@.take(i + 1).last() == entries@[i as int]);
            assert(events@.take(0) =~= Seq::<ProvinceChange>::empty());
        }
        let mut k: usize = 0;
        while k < events.len()
            invariant
                k <= events@.len(),
                out@.len() == before.len() + event_owner_changes(date, events@.take(k as int)).len(),
                forall|j: int|
                    0 <= j < out@.len() ==> (#[trigger] out@[j]).0 == (before + event_owner_changes(
                        date,
                        events@.take(k as int),
                    ))[j].0 && out@[j].1@ == (before + event_owner_changes(
                        date,
                        events@.take(k as int),
                    ))[j].1,
            decreases events@.len() - k,
        {
            let ghost prev_changes = event_owner_changes(date, events@.take(k as int));
            proof {
                assert(events@.take(k + 1).drop_last() =~= events@.take(k as int));
                assert(events@.take(k + 1).last() == events@[k as int]);
            }
            match &events[k] {
                ProvinceChange::Owner(t) => {
                    out.push((date, t.duplicate()));
                    proof {
                        assert(before + prev_changes.push((date, t@)) =~= (before
                            + prev_changes).push((date, t@)));
                    }
                },
                _ => {},
            }
            k = k + 1;
        }
        proof {
            assert(events@.take(k as int) =~= events@);
        }
        i = i + 1;
    }
    proof {
        assert(entries@.take(i as int) =~= entries@);
    }
    out
}

/// The owner of a province before its `k`-th owner change.
pub open spec fn owner_before(initial: Option<Seq<char>>, changes: Seq<(Eu4Date, Seq<char>)>, k: int) -> Option<
    Seq<char>,
> {
    if k == 0 {
        initial
    } else {
        Some(changes[k - 1].1)
    }
}

/// The last date a country held a province is no earlier than any date at
/// which it handed the province over, nor than the start of the game when
/// it held the province from the start.
pub proof fn law_province_latest_bounds_handovers(
    initial: Option<Seq<char>>,
    changes: Seq<(Eu4Date, Seq<char>)>,
    tag: Seq<char>,
    start: Eu4Date,
)
    ensures
        forall|k: int|
            0 <= k < changes.len() && owner_before(initial, changes, k) == Some(tag) ==> (
            #[trigger] province_latest(initial, changes, tag, start) matches Some(l)
                && !l.spec_before(changes[k].0)),
        changes.len() == 0 && initial == Some(tag) ==> province_latest(initial, changes, tag, start)
            == Some(start),
    decreases changes.len(),
{
    if changes.len() > 0 {
        let n = changes.len() - 1;
        let rest = changes.drop_last();
        law_province_latest_bounds_handovers(initial, rest, tag, start);
        let before = province_latest(initial, rest, tag, start);
        lemma_later_opt_bounds(before, changes[n].0);
        assert forall|k: int|
            0 <= k < changes.len() && owner_before(initial, changes, k) == Some(tag) implies (
            #[trigger] province_latest(initial, changes, tag, start) matches Some(l)
                && !l.spec_before(changes[k].0)) by {
            if k < n {
                assert(rest[k] == changes[k]);
                if k > 0 {
                    assert(rest[k - 1] == changes[k - 1]);
                }
                assert(owner_before(initial, rest, k) == Some(tag));
                assert(province_latest(initial, rest, tag, start) matches Some(l0) && !l0.spec_before(changes[k].0));
            }
        }
    }
}

proof fn lemma_later_opt_bounds(a: Option<Eu4Date>, d: Eu4Date)
    ensures
        later_opt(a, d) matches Some(m) && !m.spec_before(d) && (m == d || a == Some(m)),
        a matches Some(x) ==> !later_opt(a, d)->0.spec_before(x),
{
}

/// The latest date at which a country owned any of the provinces bounds
/// what it owned in each of them: it is no earlier than the last date the
/// country held any one province, it is that date for one of them, and
/// there is none exactly when the country held none.
pub proof fn law_latest_ownership_bounds_every_province(
    provinces: Seq<ProvinceOwnership>,
    tag: Seq<char>,
    start: Eu4Date,
)
    ensures
        forall|i: int|
            0 <= i < provinces.len() ==> (#[trigger] province_latest(
                tag_opt_view(provinces[i].owner),
                owner_changes(provinces[i].events@),
                tag,
                start,
            ) matches Some(d) ==> (latest_ownership(provinces, tag, start) matches Some(l)
                && !l.spec_before(d))),
        latest_ownership(provinces, tag, start) matches Some(l) ==> exists|i: int|
            0 <= i < provinces.len() && #[trigger] province_latest(
                tag_opt_view(provinces[i].owner),
                owner_changes(provinces[i].events@),
                tag,
                start,
            ) == Some(l),
    decreases provinces.len(),
{
    if provinces.len() > 0 {
        let n = provinces.len() - 1;
        let rest = provinces.drop_last();
        law_latest_ownership_bounds_every_province(rest, tag, start);
        let here = province_latest(
            tag_opt_view(provinces.last().owner),
            owner_changes(provinces.last().events@),
            tag,
            start,
        );
        let before = latest_ownership(rest, tag, start);
        if let Some(d) = here {
            lemma_later_opt_bounds(before, d);
        }
        assert forall|i: int|
            0 <= i < provinces.len() implies (#[trigger] province_latest(
                tag_opt_view(provinces[i].owner),
                owner_changes(provinces[i].events@),
                tag,
                start,
            ) matches Some(d) ==> (latest_ownership(provinces, tag, start) matches Some(l)
                && !l.spec_before(d))) by {
            if i < n {
                assert(provinces[i] == rest[i]);
                let di = province_latest(
                    tag_opt_view(rest[i].owner),
                    owner_changes(rest[i].events@),
                    tag,
                    start,
                );
                if let Some(d) = di {
                    let l0 = before->0;
                    if let Some(h) = here {
                        let m = later_opt(before, h)->0;
                        // the later of two dates is no earlier than either
                        assert(!m.spec_before(l0));
                        assert(!l0.spec_before(d));
                    }
                }
            }
        }
        if latest_ownership(provinces, tag, start) is Some {
            let l = latest_ownership(provinces, tag, start)->0;
            if here is Some && l == here->0 {
                assert(provinces[n] == provinces.last());
            } else {
                let i = choose|i: int|
                    0 <= i < rest.len() && #[trigger] province_latest(
                        tag_opt_view(rest[i].owner),
                        owner_changes(rest[i].events@),
                        tag,
                        start,
                    ) == Some(l);
                assert(provinces[i] == rest[i]);
            }
        }
    }
}

fn later_of(a: Option<Eu4Date>, d: Eu4Date) -> (r: Option<Eu4Date>)
    ensures
        r == later_opt(a, d),
{
    match a {
        None => Some(d),
        Some(x) => Some(
            if x.is_before(&d) {
                d
            } else {
                x
            },
        ),
    }
}

/// The last date at which `tag` owned any of the provinces.
pub fn latest_owned(provinces: &[ProvinceOwnership], tag: &CountryTag, start: Eu4Date) -> (r:
    Option<Eu4Date>)
    ensures
        r == latest_ownership(provinces@, tag@, start),
{
    let mut best: Option<Eu4Date> = None;
    let mut p: usize = 0;
    proof {
        assert(provinces@.take(0) =~= Seq::<ProvinceOwnership>::empty());
    }
    while p < provinces.len()
        invariant
            p <= provinces@.len(),
            best == latest_ownership(provinces@.take(p as int), tag@, start),
        decreases provinces@.len() - p,
    {
        let prov = &provinces[p];
        let changes = collect_owner_changes(&prov.events);
        let ghost ch = owner_changes(prov.events@);
        let ghost init = tag_opt_view(prov.owner);
        let mut here: Option<Eu4Date> = match &prov.owner {
            Some(o) => if o.same_as(tag) {
                Some(start)
            } else {
                None
            },
            None => None,
        };
        let mut k: usize = 0;
        proof {
            assert(ch.take(0) =~= Seq::<(Eu4Date, Seq<char>)>::empty());
        }
        while k < changes.len()
            invariant
                k <= changes@.len() == ch.len(),
                forall|j: int|
                    0 <= j < changes@.len() ==> (#[trigger] changes@[j]).0 == ch[j].0
                        && changes@[j].1@ == ch[j].1,
                here == province_latest(init, ch.take(k as int), tag@, start),
                init == tag_opt_view(prov.owner),
            decreases changes@.len() - k,
        {
            proof {
                assert(ch.take(k + 1).drop_last() =~= ch.take(k as int));
                assert(ch.take(k + 1)[k as int] == ch[k as int]);
                if k > 0 {
                    assert(ch.take(k + 1)[k - 1] == ch[k - 1]);
                }
            }
            let prev_is_tag = if k == 0 {
                match &prov.owner {
                    Some(o) => o.same_as(tag),
                    None => false,
                }
            } else {
                changes[k - 1].1.same_as(tag)
            };
            if prev_is_tag {
                here = later_of(here, changes[k].0);
            }
            k = k + 1;
        }
        proof {
            assert(ch.take(k as int) =~= ch);
            assert(provinces@.take(p + 1).drop_last() =~= provinces@.take(p as int));
            assert(provinces@.take(p + 1).last() == provinces@[p as int]);
        }
        best = match here {
            None => best,
            Some(d) => later_of(best, d),
        };
        p = p + 1;
    }
    proof {
        assert(provinces@.take(p as int) =~= provinces@);
    }
    best
}

/// The names of the players of `tag` among the first `n` (name, tag) pairs
/// of `pairs`, in order. The name "Player" counts only in multiplayer.
pub open spec fn player_names_of(pairs: Seq<String>, n: nat, tag: Seq<char>, multiplayer: bool) -> Seq<
    Seq<char>,
>
    decreases n,
{
    if n == 0 {
        Seq::empty()
    } else {
        let rest = player_names_of(pairs, (n - 1) as nat, tag, multiplayer);
        let name = pairs[2 * (n - 1)]@;
        let t = pairs[2 * (n - 1) + 1]@;
        if name == "Player"@ && !multiplayer {
            rest
        } else if t == tag {
            rest.push(name)
        } else {
            rest
        }
    }
}

pub open spec fn names_match(v: Seq<String>, s: Seq<Seq<char>>) -> bool {
    &&& v.len() == s.len()
    &&& forall|j: int| 0 <= j < v.len() ==> (#[trigger] v[j])@ == s[j]
}

/// The names of the players of `tag` in the (name, tag) pairs of `pairs`.
fn players_of(pairs: &[String], tag: &CountryTag, multiplayer: bool) -> (r: Vec<String>)
    ensures
        names_match(r@, player_names_of(pairs@, (pairs@.len() / 2) as nat, tag@, multiplayer)),
{
    let mut out: Vec<String> = Vec::new();
    let n = pairs.len() / 2;
    let mut i: usize = 0;
    while i < n
        invariant
            n == pairs@.len() / 2,
            i <= n,
            names_match(out@, player_names_of(pairs@, i as nat, tag@, multiplayer)),
        decreases n - i,
    {
        let len = pairs.len();
        assert(2 * i + 1 < len) by (nonlinear_arith)
            requires
                i < n,
                n == len / 2,
        ;
        let name = &pairs[2 * i];
        let t = &pairs[2 * i + 1];
        let ghost prev = player_names_of(pairs@, i as nat, tag@, multiplayer);
        let skip = str_eq(name.as_str(), "Player") && !multiplayer;
        if !skip && str_eq(t.as_str(), tag.as_str()) {
            out.push(name.clone());
        }
        proof {
            assert(player_names_of(pairs@, (i + 1) as nat, tag@, multiplayer) == if skip {
                prev
            } else if t@ == tag@ {
                prev.push(name@)
            } else {
                prev
            });
        }
        i = i + 1;
    }
    out
}

/// A country that a player played, and how it came to be.
#[derive(Debug)]
pub struct PlayerHistory {
    pub tag: CountryTag,
    /// Whether the player is currently in the session
    pub is_human: bool,
    /// Names of the players (may be empty)
    pub player_names: Vec<String>,
    /// Whether the country owns any provinces
    pub exists: bool,
    /// A history of tag switches for said country
    pub played_tags: Vec<CountryPlayed>,
}

/// When the play of a country ends: the date of the save if it still has
/// cities, else the last date it owned a province, else the date of the
/// save.
pub open spec fn history_end(save: QuerySave, tag: Seq<char>, c: Country) -> Eu4Date {
    if c.num_of_cities != 0 {
        save.date
    } else {
        match latest_ownership(save.provinces@, tag, save.start_date) {
            Some(d) => d,
            None => save.date,
        }
    }
}

/// Whether `h` is the history of the country `c`, tagged `tag`, in `save`.
pub open spec fn history_matches(h: PlayerHistory, save: QuerySave, tag: CountryTag, c: Country) -> bool {
    let end = history_end(save, tag@, c);
    &&& h.tag@ == tag@
    &&& h.is_human == c.human
    &&& h.exists == (c.num_of_cities != 0)
    &&& names_match(
        h.player_names@,
        player_names_of(
            save.players_countries@,
            (save.players_countries@.len() / 2) as nat,
            tag@,
            save.multiplayer,
        ),
    )
    &&& played_matches(
        h.played_tags@,
        history_tag_changes(c.history.events@.take(kept_entries(c.history.events@, end) as int)),
        tag@,
        save.start_date,
        end,
    )
}

/// The positions of the countries that a player played at some point.
pub open spec fn player_indices(countries: Seq<(CountryTag, Country)>) -> Seq<int>
    decreases countries.len(),
{
    if countries.len() == 0 {
        Seq::empty()
    } else if countries.last().1.was_player {
        player_indices(countries.drop_last()).push(countries.len() - 1)
    } else {
        player_indices(countries.drop_last())
    }
}

/// The histories of the countries that a player played at some point, in
/// the order of the countries.
pub fn calc_histories(save: &QuerySave) -> (r: Vec<PlayerHistory>)
    ensures
        r@.len() == player_indices(save.countries@).len(),
        forall|i: int|
            0 <= i < r@.len() ==> history_matches(
                #[trigger] r@[i],
                *save,
                save.countries@[player_indices(save.countries@)[i]].0,
                save.countries@[player_indices(save.countries@)[i]].1,
            ),
{
    let mut result: Vec<PlayerHistory> = Vec::new();
    let mut c: usize = 0;
    proof {
        assert(save.countries@.take(0) =~= Seq::<(CountryTag, Country)>::empty());
    }
    while c < save.countries.len()
        invariant
            c <= save.countries@.len(),
            result@.len() == player_indices(save.countries@.take(c as int)).len(),
            forall|i: int|
                0 <= i < result@.len() ==> history_matches(
                    #[trigger] result@[i],
                    *save,
                    save.countries@[player_indices(save.countries@.take(c as int))[i]].0,
                    save.countries@[player_indices(save.countries@.take(c as int))[i]].1,
                ),
        decreases save.countries@.len() - c,
    {
        let tag = &save.countries[c].0;
        let country = &save.countries[c].1;
        let ghost before = player_indices(save.countries@.take(c as int));
        proof {
            assert(save.countries@.take(c + 1).drop_last() =~= save.countries@.take(c as int));
            assert(save.countries@.take(c + 1).last() == save.countries@[c as int]);
        }
        if country.was_player {
            let exists = country.num_of_cities != 0;
            let end_date = if exists {
                save.date
            } else {
                match latest_owned(&save.provinces, tag, save.start_date) {
                    Some(d) => d,
                    None => save.date,
                }
            };
            let players = players_of(&save.players_countries, tag, save.multiplayer);
            let played_tags = trace_country(save.start_date, tag, &country.history.events, end_date);
            let ghost old_res = result@;
            result.push(
                PlayerHistory {
                    tag: tag.duplicate(),
                    is_human: country.human,
                    player_names: players,
                    exists,
                    played_tags,
                },
            );
            proof {
                assert(player_indices(save.countries@.take(c + 1)) == before.push(c as int));
                assert forall|i: int| 0 <= i < result@.len() implies history_matches(
                    #[trigger] result@[i],
                    *save,
                    save.countries@[player_indices(save.countries@.take(c + 1))[i]].0,
                    save.countries@[player_indices(save.countries@.take(c + 1))[i]].1,
                ) by {
                    if i < result@.len() - 1 {
                        assert(result@[i] == old_res[i]);
                    }
                }
            }
        }
        c = c + 1;
    }
    proof {
        assert(save.countries@.take(c as int) =~= save.countries@);
    }
    result
}

/// The stretches of play cover the game without gaps: the first starts at
/// the start of the game, each next one starts where the one before ended,
/// and the last is played as the country's current tag up to the end.
pub proof fn law_stretches_follow_each_other(
    changes: Seq<(Eu4Date, Seq<char>)>,
    tag: Seq<char>,
    start: Eu4Date,
    end: Eu4Date,
    p: Seq<CountryPlayed>,
)
    requires
        played_matches(p, changes, tag, start, end),
    ensures
        p[0].start == start,
        forall|i: int| 0 < i < p.len() ==> (#[trigger] p[i]).start == p[i - 1].end,
        p.last().tag@ == tag,
        p.last().end == end,
{
    assert(played_view(p[0]) == played_stretch(changes, tag, start, end, 0));
    assert(played_view(p[p.len() - 1]) == played_stretch(changes, tag, start, end, p.len() - 1));
    assert forall|i: int| 0 < i < p.len() implies (#[trigger] p[i]).start == p[i - 1].end by {
        assert(played_view(p[i]) == played_stretch(changes, tag, start, end, i));
        assert(played_view(p[i - 1]) == played_stretch(changes, tag, start, end, i - 1));
    }
}

} // verus!
