//! Following countries through their tag switches.
use crate::country_tag::CountryTag;
use crate::date::Eu4Date;
use crate::query::{NationEvent, NationEventKind, NationEvents};
use vstd::prelude::*;

verus! {

/// A tag switch: the tag switched to, when, and the tag the nation is
/// stored under.
pub type SwitchView = (Seq<char>, Eu4Date, Seq<char>);

/// The tag switches of a nation's events, in order, when the nation is
/// stored under another tag than it started as.
pub open spec fn event_switches(events: Seq<NationEvent>, stored: Seq<char>) -> Seq<SwitchView>
    decreases events.len(),
{
    if events.len() == 0 {
        Seq::empty()
    } else {
        let rest = event_switches(events.drop_last(), stored);
        match events.last().kind {
            NationEventKind::TagSwitch(to) => rest.push((to@, events.last().date, stored)),
            _ => rest,
        }
    }
}

/// The tag switches of all the nations, in order. Nations still under the
/// tag they started as contribute none.
pub open spec fn all_switches(nations: Seq<NationEvents>) -> Seq<SwitchView>
    decreases nations.len(),
{
    if nations.len() == 0 {
        Seq::empty()
    } else {
        let n = nations.last();
        let rest = all_switches(nations.drop_last());
        if n.initial@ == n.stored@ {
            rest
        } else {
            rest + event_switches(n.events@, n.stored@)
        }
    }
}

/// The (initial, stored) tags of the nations, in order.
pub open spec fn initial_pairs(nations: Seq<NationEvents>) -> Seq<(Seq<char>, Seq<char>)>
    decreases nations.len(),
{
    if nations.len() == 0 {
        Seq::empty()
    } else {
        initial_pairs(nations.drop_last()).push((nations.last().initial@, nations.last().stored@))
    }
}

/// The text of pairs of tags.
pub open spec fn pairs_view(s: Seq<(CountryTag, CountryTag)>) -> Seq<(Seq<char>, Seq<char>)>
    decreases s.len(),
{
    if s.len() == 0 {
        Seq::empty()
    } else {
        pairs_view(s.drop_last()).push((s.last().0@, s.last().1@))
    }
}

/// The text of recorded switches.
pub open spec fn switches_view(s: Seq<(CountryTag, Eu4Date, CountryTag)>) -> Seq<SwitchView>
    decreases s.len(),
{
    if s.len() == 0 {
        Seq::empty()
    } else {
        switches_view(s.drop_last()).push((s.last().0@, s.last().1, s.last().2@))
    }
}

proof fn lemma_switches_view_index(s: Seq<(CountryTag, Eu4Date, CountryTag)>, k: int)
    requires
        0 <= k < s.len(),
    ensures
        switches_view(s).len() == s.len(),
        switches_view(s)[k] == (s[k].0@, s[k].1, s[k].2@),
    decreases s.len(),
{
    if k < s.len() - 1 {
        assert(s.drop_last()[k] == s[k]);
        lemma_switches_view_index(s.drop_last(), k);
    } else {
        lemma_switches_view_len(s.drop_last());
    }
}

proof fn lemma_switches_view_len(s: Seq<(CountryTag, Eu4Date, CountryTag)>)
    ensures
        switches_view(s).len() == s.len(),
    decreases s.len(),
{
    if s.len() > 0 {
        lemma_switches_view_len(s.drop_last());
    }
}

/// The stored tag of the last nation that started as `tag`.
pub open spec fn initial_lookup(pairs: Seq<(Seq<char>, Seq<char>)>, tag: Seq<char>) -> Option<
    Seq<char>,
>
    decreases pairs.len(),
{
    if pairs.len() == 0 {
        None
    } else if pairs.last().0 == tag {
        Some(pairs.last().1)
    } else {
        initial_lookup(pairs.drop_last(), tag)
    }
}

/// Among the switches to `tag` strictly before `date`, the one with the
/// latest date, the last recorded among those with that date.
pub open spec fn latest_before(sw: Seq<SwitchView>, tag: Seq<char>, date: Eu4Date) -> Option<
    SwitchView,
>
    decreases sw.len(),
{
    if sw.len() == 0 {
        None
    } else {
        let best = latest_before(sw.drop_last(), tag, date);
        let e = sw.last();
        if e.0 == tag && e.1.spec_before(date) && (best is None || !e.1.spec_before(best.unwrap().1)) {
            Some(e)
        } else {
            best
        }
    }
}

/// Where a tag at a date is stored now: the nation of the latest switch to
/// it before the date, else the nation that started as it, else the tag
/// itself.
pub open spec fn resolved_tag(
    pairs: Seq<(Seq<char>, Seq<char>)>,
    sw: Seq<SwitchView>,
    tag: Seq<char>,
    date: Eu4Date,
) -> Seq<char> {
    match latest_before(sw, tag, date) {
        Some(e) => e.2,
        None => match initial_lookup(pairs, tag) {
            Some(s) => s,
            None => tag,
        },
    }
}

/// Tracks tag progression throughput history
///
/// The tag resolver is important to answering questions like "where are they
/// now?" when looking at historic events like province changes or wars. When
/// countries tag switch the tag resolver is able to connect historic events
/// to country's current selves. For instance in a TYR -> IRE -> GBR game, the
/// provinces and wars gained while playing as TYR should still be aggregated
/// under the current GBR tag.
#[derive(Debug)]
pub struct TagResolver {
    initial_to_stored: Vec<(CountryTag, CountryTag)>,
    switches: Vec<(CountryTag, Eu4Date, CountryTag)>,
}

impl TagResolver {
    pub closed spec fn spec_pairs(&self) -> Seq<(Seq<char>, Seq<char>)> {
        pairs_view(self.initial_to_stored@)
    }

    pub closed spec fn spec_switches(&self) -> Seq<SwitchView> {
        switches_view(self.switches@)
    }

    pub fn create(nation_events: &[NationEvents]) -> (r: TagResolver)
        ensures
            r.spec_pairs() == initial_pairs(nation_events@),
            r.spec_switches() == all_switches(nation_events@),
    {
        let mut initial_to_stored: Vec<(CountryTag, CountryTag)> = Vec::new();
        let mut switches: Vec<(CountryTag, Eu4Date, CountryTag)> = Vec::new();
        let mut i: usize = 0;
        proof {
            assert(nation_events@.take(0) =~= Seq::<NationEvents>::empty());
        }
        while i < nation_events.len()
            invariant
                i <= nation_events@.len(),
                pairs_view(initial_to_stored@) == initial_pairs(nation_events@.take(i as int)),
                switches_view(switches@) == all_switches(nation_events@.take(i as int)),
            decreases nation_events@.len() - i,
        {
            let nation = &nation_events[i];
            let ghost before = switches_view(switches@);
            let ghost old_pairs = initial_to_stored@;
            initial_to_stored.push((nation.initial.duplicate(), nation.stored.duplicate()));
            proof {
                assert(nation_events@.take(i + 1).drop_last() =~= nation_events@.take(i as int));
                assert(initial_to_stored@.drop_last() =~= old_pairs);
            }
            if !nation.initial.same_as(&nation.stored) {
                let mut j: usize = 0;
                proof {
                    assert(nation.events@.take(0) =~= Seq::<NationEvent>::empty());
                    assert(before + Seq::<SwitchView>::empty() =~= before);
                }
                while j < nation.events.len()
                    invariant
                        j <= nation.events@.len(),
                        switches_view(switches@) == before + event_switches(
                            nation.events@.take(j as int),
                            nation.stored@,
                        ),
                    decreases nation.events@.len() - j,
                {
                    let event = &nation.events[j];
                    let ghost old_sw = switches@;
                    proof {
                        assert(nation.events@.take(j + 1).drop_last() =~= nation.events@.take(
                            j as int,
                        ));
                    }
                    match &event.kind {
                        NationEventKind::TagSwitch(to) => {
                            switches.push((to.duplicate(), event.date, nation.stored.duplicate()));
                            proof {
                                assert(switches@.drop_last() =~= old_sw);
                                assert(switches_view(switches@) =~= before + event_switches(
                                    nation.events@.take(j + 1),
                                    nation.stored@,
                                ));
                            }
                        },
                        _ => {},
                    }
                    j = j + 1;
                }
                proof {
                    assert(nation.events@.take(j as int) =~= nation.events@);
                }
            }
            i = i + 1;
        }
        proof {
            assert(nation_events@.take(i as int) =~= nation_events@);
        }
        TagResolver { initial_to_stored, switches }
    }

    /// Given a date and tag associated with the date, return the current tag where
    /// the argument is stored.
    pub fn resolve(&self, tag: &CountryTag, date: Eu4Date) -> (r: CountryTag)
        ensures
            r@ == resolved_tag(self.spec_pairs(), self.spec_switches(), tag@, date),
    {
        let mut best: Option<usize> = None;
        let mut i: usize = 0;
        proof {
            assert(self.switches@.take(0) =~= Seq::<(CountryTag, Eu4Date, CountryTag)>::empty());
        }
        while i < self.switches.len()
            invariant
                i <= self.switches@.len(),
                match best {
                    Some(b) => b < i && latest_before(
                        switches_view(self.switches@.take(i as int)),
                        tag@,
                        date,
                    ) == Some(
                        (
                            self.switches@[b as int].0@,
                            self.switches@[b as int].1,
                            self.switches@[b as int].2@,
                        ),
                    ),
                    None => latest_before(
                        switches_view(self.switches@.take(i as int)),
                        tag@,
                        date,
                    ) is None,
                },
            decreases self.switches@.len() - i,
        {
            let e = &self.switches[i];
            proof {
                assert(self.switches@.take(i + 1).drop_last() =~= self.switches@.take(i as int));
                assert(self.switches@.take(i + 1).last() == self.switches@[i as int]);
                assert(switches_view(self.switches@.take(i + 1)) == switches_view(
                    self.switches@.take(i as int),
                ).push((e.0@, e.1, e.2@)));
                assert(switches_view(self.switches@.take(i as int)).push((e.0@, e.1, e.2@)).drop_last()
                    =~= switches_view(self.switches@.take(i as int)));
            }
            if e.0.same_as(tag) && e.1.is_before(&date) {
                let replace = match best {
                    None => true,
                    Some(b) => !e.1.is_before(&self.switches[b].1),
                };
                if replace {
                    best = Some(i);
                }
            }
            i = i + 1;
        }
        proof {
            assert(self.switches@.take(i as int) =~= self.switches@);
        }
        match best {
            Some(b) => self.switches[b].2.duplicate(),
            None => {
                let mut k: usize = self.initial_to_stored.len();
                proof {
                    assert(self.initial_to_stored@.take(k as int) =~= self.initial_to_stored@);
                }
                while k > 0
                    invariant
                        k <= self.initial_to_stored@.len(),
                        latest_before(self.spec_switches(), tag@, date) is None,
                        initial_lookup(self.spec_pairs(), tag@) == initial_lookup(
                            pairs_view(self.initial_to_stored@.take(k as int)),
                            tag@,
                        ),
                    decreases k,
                {
                    let pair = &self.initial_to_stored[k - 1];
                    proof {
                        assert(self.initial_to_stored@.take(k as int).drop_last()
                            =~= self.initial_to_stored@.take(k - 1));
                        assert(self.initial_to_stored@.take(k as int).last()
                            == self.initial_to_stored@[k - 1]);
                        assert(pairs_view(self.initial_to_stored@.take(k as int)) == pairs_view(
                            self.initial_to_stored@.take(k - 1),
                        ).push((pair.0@, pair.1@)));
                        assert(pairs_view(self.initial_to_stored@.take(k - 1)).push((pair.0@, pair.1@)).drop_last()
                            =~= pairs_view(self.initial_to_stored@.take(k - 1)));
                    }
                    if pair.0.same_as(tag) {
                        return pair.1.duplicate();
                    }
                    k = k - 1;
                }
                proof {
                    assert(self.initial_to_stored@.take(0) =~= Seq::<(CountryTag, CountryTag)>::empty());
                }
                tag.duplicate()
            },
        }
    }
}

/// The switch that resolution picks is the latest switch to the tag before
/// the date: every other switch to the tag before the date is no later.
/// When it picks none, no switch to the tag comes before the date.
pub proof fn law_latest_switch_wins(sw: Seq<SwitchView>, tag: Seq<char>, date: Eu4Date)
    ensures
        latest_before(sw, tag, date) matches Some(e) ==> {
            &&& e.0 == tag
            &&& e.1.spec_before(date)
            &&& sw.contains(e)
            &&& forall|j: int|
                0 <= j < sw.len() && sw[j].0 == tag && sw[j].1.spec_before(date) ==> !e.1.spec_before(
                    #[trigger] sw[j].1,
                )
        },
        latest_before(sw, tag, date) is None ==> forall|j: int|
            0 <= j < sw.len() && sw[j].0 == tag ==> !(#[trigger] sw[j].1).spec_before(date),
    decreases sw.len(),
{
    if sw.len() > 0 {
        let init = sw.drop_last();
        let last = sw.last();
        law_latest_switch_wins(init, tag, date);
        let best = latest_before(init, tag, date);
        let cand = last.0 == tag && last.1.spec_before(date);
        match latest_before(sw, tag, date) {
            None => {
                assert forall|j: int|
                    0 <= j < sw.len() && sw[j].0 == tag implies !(#[trigger] sw[j].1).spec_before(date) by {
                    if j < sw.len() - 1 {
                        assert(init[j] == sw[j]);
                    }
                }
            },
            Some(e) => {
                if cand && (best is None || !last.1.spec_before(best.unwrap().1)) {
                    assert(e == last);
                    assert(sw[sw.len() - 1] == e);
                    assert forall|j: int|
                        0 <= j < sw.len() && sw[j].0 == tag && sw[j].1.spec_before(date) implies !e.1.spec_before(
                            #[trigger] sw[j].1,
                        ) by {
                        if j < sw.len() - 1 {
                            assert(init[j] == sw[j]);
                            match best {
                                None => {},
                                Some(b) => {
                                    crate::date::law_before_total(b.1, sw[j].1);
                                    crate::date::law_before_total(e.1, b.1);
                                    if e.1.spec_before(sw[j].1) {
                                        if b.1 == e.1 {
                                        } else {
                                            crate::date::law_before_transitive(b.1, e.1, sw[j].1);
                                        }
                                    }
                                },
                            }
                        } else {
                            crate::date::law_before_total(e.1, e.1);
                        }
                    }
                } else {
                    assert(e == best.unwrap());
                    let k = choose|k: int| 0 <= k < init.len() && init[k] == e;
                    assert(sw[k] == e);
                    assert forall|j: int|
                        0 <= j < sw.len() && sw[j].0 == tag && sw[j].1.spec_before(date) implies !e.1.spec_before(
                            #[trigger] sw[j].1,
                        ) by {
                        if j < sw.len() - 1 {
                            assert(init[j] == sw[j]);
                        } else {
                            assert(sw[j] == last);
                        }
                    }
                }
            },
        }
    }
}

/// A tag with no switches to it and no nation that started as it resolves
/// to itself, whatever the date.
pub proof fn law_unknown_tag_resolves_to_itself(
    pairs: Seq<(Seq<char>, Seq<char>)>,
    sw: Seq<SwitchView>,
    tag: Seq<char>,
    date: Eu4Date,
)
    requires
        forall|j: int| 0 <= j < sw.len() ==> (#[trigger] sw[j]).0 != tag,
        forall|j: int| 0 <= j < pairs.len() ==> (#[trigger] pairs[j]).0 != tag,
    ensures
        resolved_tag(pairs, sw, tag, date) == tag,
{
    lemma_no_switch_none(sw, tag, date);
    lemma_no_pair_none(pairs, tag);
}

proof fn lemma_no_switch_none(sw: Seq<SwitchView>, tag: Seq<char>, date: Eu4Date)
    requires
        forall|j: int| 0 <= j < sw.len() ==> (#[trigger] sw[j]).0 != tag,
    ensures
        latest_before(sw, tag, date) is None,
    decreases sw.len(),
{
    if sw.len() > 0 {
        let init = sw.drop_last();
        assert forall|j: int| 0 <= j < init.len() implies (#[trigger] init[j]).0 != tag by {
            assert(init[j] == sw[j]);
        }
        lemma_no_switch_none(init, tag, date);
        assert(sw[sw.len() - 1].0 != tag);
    }
}

proof fn lemma_no_pair_none(pairs: Seq<(Seq<char>, Seq<char>)>, tag: Seq<char>)
    requires
        forall|j: int| 0 <= j < pairs.len() ==> (#[trigger] pairs[j]).0 != tag,
    ensures
        initial_lookup(pairs, tag) is None,
    decreases pairs.len(),
{
    if pairs.len() > 0 {
        let init = pairs.drop_last();
        assert forall|j: int| 0 <= j < init.len() implies (#[trigger] init[j]).0 != tag by {
            assert(init[j] == pairs[j]);
        }
        lemma_no_pair_none(init, tag);
        assert(pairs[pairs.len() - 1].0 != tag);
    }
}

/// A country's starting tag resolves to the tag the country is stored
/// under now, at any date before another country switched to that tag,
/// when no country listed after it started as the same tag.
pub proof fn law_starting_tag_resolves_to_stored(nations: Seq<NationEvents>, k: int, date: Eu4Date)
    requires
        0 <= k < nations.len(),
        forall|j: int| k < j < nations.len() ==> (#[trigger] nations[j]).initial@ != nations[k].initial@,
        forall|j: int|
            0 <= j < all_switches(nations).len() && (#[trigger] all_switches(nations)[j]).0
                == nations[k].initial@ ==> !all_switches(nations)[j].1.spec_before(date),
    ensures
        resolved_tag(initial_pairs(nations), all_switches(nations), nations[k].initial@, date)
            == nations[k].stored@,
{
    let tag = nations[k].initial@;
    law_latest_switch_wins(all_switches(nations), tag, date);
    if latest_before(all_switches(nations), tag, date) is Some {
        let e = latest_before(all_switches(nations), tag, date).unwrap();
        let j = choose|j: int| 0 <= j < all_switches(nations).len() && all_switches(nations)[j] == e;
        assert(all_switches(nations)[j].0 == tag);
    }
    lemma_initial_lookup_last(nations, k);
}

/// The pairs of the nations end with the last nation that started as a tag.
proof fn lemma_initial_lookup_last(nations: Seq<NationEvents>, k: int)
    requires
        0 <= k < nations.len(),
        forall|j: int| k < j < nations.len() ==> (#[trigger] nations[j]).initial@ != nations[k].initial@,
    ensures
        initial_lookup(initial_pairs(nations), nations[k].initial@) == Some(nations[k].stored@),
    decreases nations.len(),
{
    let pairs = initial_pairs(nations);
    assert(initial_pairs(nations.drop_last()).push((nations.last().initial@, nations.last().stored@)).drop_last()
        =~= initial_pairs(nations.drop_last()));
    if k < nations.len() - 1 {
        assert(nations.drop_last()[k] == nations[k]);
        assert forall|j: int| k < j < nations.drop_last().len() implies (#[trigger] nations.drop_last()[j]).initial@
            != nations.drop_last()[k].initial@ by {
            assert(nations.drop_last()[j] == nations[j]);
        }
        lemma_initial_lookup_last(nations.drop_last(), k);
        assert(nations[nations.len() - 1].initial@ != nations[k].initial@);
    }
}

/// After the one switch to a tag that happened before a date, the tag
/// resolves at that date to the nation that switched to it.
pub proof fn law_switched_tag_resolves_to_switcher(
    pairs: Seq<(Seq<char>, Seq<char>)>,
    sw: Seq<SwitchView>,
    j: int,
    date: Eu4Date,
)
    requires
        0 <= j < sw.len(),
        sw[j].1.spec_before(date),
        forall|i: int|
            0 <= i < sw.len() && i != j && (#[trigger] sw[i]).0 == sw[j].0 ==> !sw[i].1.spec_before(date),
    ensures
        resolved_tag(pairs, sw, sw[j].0, date) == sw[j].2,
{
    let tag = sw[j].0;
    law_latest_switch_wins(sw, tag, date);
    match latest_before(sw, tag, date) {
        Some(e) => {
            let i = choose|i: int| 0 <= i < sw.len() && sw[i] == e;
            assert(sw[i].0 == tag && sw[i].1.spec_before(date));
            assert(i == j);
        },
        None => {
            assert(sw[j].0 == tag);
        },
    }
}

} // verus!
