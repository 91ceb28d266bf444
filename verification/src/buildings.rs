//! When the buildings of a province were built and torn down.
use crate::date::Eu4Date;
use crate::history::{ProvinceChange, ProvinceOwnership};
use crate::query::{distinct_texts, insert_text, text_set, BuildingConstruction, Query};
use crate::strings::str_eq;
use vstd::prelude::*;

verus! {

/// A building built or torn down in a province.
#[derive(Debug)]
pub struct BuildingEvent {
    pub building: String,
    pub date: Eu4Date,
    pub action: BuildingConstruction,
}

pub open spec fn building_view(e: BuildingEvent) -> (Seq<char>, Eu4Date, BuildingConstruction) {
    (e.building@, e.date, e.action)
}

/// The buildings that stand in any of the provinces.
pub open spec fn all_buildings(provinces: Seq<ProvinceOwnership>) -> Set<Seq<char>> {
    Set::new(
        |s: Seq<char>|
            exists|i: int| 0 <= i < provinces.len() && #[trigger] text_set(provinces[i].buildings@).contains(s),
    )
}

/// The buildings among the values a province started with, as built at
/// the start of the game.
pub open spec fn initial_buildings(flags: Seq<String>, built: Set<Seq<char>>, start: Eu4Date) -> Seq<
    (Seq<char>, Eu4Date, BuildingConstruction),
>
    decreases flags.len(),
{
    if flags.len() == 0 {
        Seq::empty()
    } else {
        let rest = initial_buildings(flags.drop_last(), built, start);
        if built.contains(flags.last()@) {
            rest.push((flags.last()@, start, BuildingConstruction::Constructed))
        } else {
            rest
        }
    }
}

/// The buildings built (yes) or torn down (no) among the events of a date.
pub open spec fn event_buildings(date: Eu4Date, events: Seq<ProvinceChange>, built: Set<Seq<char>>) -> Seq<
    (Seq<char>, Eu4Date, BuildingConstruction),
>
    decreases events.len(),
{
    if events.len() == 0 {
        Seq::empty()
    } else {
        let rest = event_buildings(date, events.drop_last(), built);
        match events.last() {
            ProvinceChange::Flag(key, x) => if built.contains(key@) {
                rest.push(
                    (
                        key@,
                        date,
                        if x {
                            BuildingConstruction::Constructed
                        } else {
                            BuildingConstruction::Destroyed
                        },
                    ),
                )
            } else {
                rest
            },
            _ => rest,
        }
    }
}

/// The buildings built or torn down over a province's dated history.
pub open spec fn dated_buildings(entries: Seq<(Eu4Date, Vec<ProvinceChange>)>, built: Set<Seq<char>>) -> Seq<
    (Seq<char>, Eu4Date, BuildingConstruction),
>
    decreases entries.len(),
{
    if entries.len() == 0 {
        Seq::empty()
    } else {
        dated_buildings(entries.drop_last(), built) + event_buildings(
            entries.last().0,
            entries.last().1@,
            built,
        )
    }
}

pub open spec fn buildings_match(v: Seq<BuildingEvent>, s: Seq<(Seq<char>, Eu4Date, BuildingConstruction)>) -> bool {
    &&& v.len() == s.len()
    &&& forall|i: int| 0 <= i < v.len() ==> building_view(#[trigger] v[i]) == s[i]
}

/// Whether one of the texts is `s`.
fn has_text(v: &Vec<String>, s: &String) -> (r: bool)
    ensures
        r == text_set(v@).contains(s@),
{
    let mut k: usize = 0;
    while k < v.len()
        invariant
            k <= v@.len(),
            forall|j: int| 0 <= j < k ==> (#[trigger] v@[j])@ != s@,
        decreases v@.len() - k,
    {
        if str_eq(v[k].as_str(), s.as_str()) {
            return true;
        }
        k = k + 1;
    }
    false
}

impl Query {
    /// Return all unique buildings in the world that are built
    pub fn built_buildings(&self) -> (r: Vec<String>)
        ensures
            distinct_texts(r@),
            text_set(r@) == all_buildings(self.spec_save().provinces@),
    {
        let provinces = &self.save().provinces;
        let mut out: Vec<String> = Vec::new();
        let mut p: usize = 0;
        proof {
            assert(text_set(out@) =~= Set::<Seq<char>>::empty());
            assert(all_buildings(provinces@.take(0)) =~= Set::<Seq<char>>::empty());
        }
        while p < provinces.len()
            invariant
                p <= provinces@.len(),
                *provinces == self.spec_save().provinces,
                distinct_texts(out@),
                text_set(out@) == all_buildings(provinces@.take(p as int)),
            decreases provinces@.len() - p,
        {
            let names = &provinces[p].buildings;
            let ghost done = text_set(out@);
            let mut j: usize = 0;
            proof {
                assert(done.union(text_set(names@.take(0))) =~= done);
            }
            while j < names.len()
                invariant
                    j <= names@.len(),
                    distinct_texts(out@),
                    text_set(out@) == done.union(text_set(names@.take(j as int))),
                decreases names@.len() - j,
            {
                insert_text(&mut out, &names[j]);
                proof {
                    assert forall|x: Seq<char>| #[trigger] text_set(names@.take(j + 1)).contains(x)
                        <==> text_set(names@.take(j as int)).insert(names@[j as int]@).contains(x) by {
                        if text_set(names@.take(j + 1)).contains(x) {
                            let w = choose|w: int| 0 <= w < j + 1 && (#[trigger] names@.take(j + 1)[w])@ == x;
                            if w < j {
                                assert(names@.take(j as int)[w] == names@.take(j + 1)[w]);
                            }
                        }
                        if text_set(names@.take(j as int)).contains(x) {
                            let w = choose|w: int| 0 <= w < j && (#[trigger] names@.take(j as int)[w])@ == x;
                            assert(names@.take(j as int)[w] == names@.take(j + 1)[w]);
                        }
                        if x == names@[j as int]@ {
                            assert(names@.take(j + 1)[j as int] == names@[j as int]);
                        }
                    }
                    assert(text_set(out@) =~= done.union(text_set(names@.take(j + 1))));
                }
                j = j + 1;
            }
            proof {
                assert(names@.take(j as int) =~= names@);
                assert forall|x: Seq<char>| #[trigger] all_buildings(provinces@.take(p + 1)).contains(x)
                    <==> (all_buildings(provinces@.take(p as int)).contains(x) || text_set(names@).contains(x)) by {
                    if all_buildings(provinces@.take(p + 1)).contains(x) {
                        let i = choose|i: int| 0 <= i < p + 1 && #[trigger] text_set(provinces@.take(p + 1)[i].buildings@).contains(x);
                        if i < p {
                            assert(provinces@.take(p as int)[i] == provinces@.take(p + 1)[i]);
                            assert(text_set(provinces@.take(p as int)[i].buildings@).contains(x));
                        } else {
                            assert(provinces@.take(p + 1)[i] == provinces@[p as int]);
                        }
                    }
                    if all_buildings(provinces@.take(p as int)).contains(x) {
                        let i = choose|i: int| 0 <= i < p && #[trigger] text_set(provinces@.take(p as int)[i].buildings@).contains(x);
                        assert(provinces@.take(p as int)[i] == provinces@.take(p + 1)[i]);
                        assert(text_set(provinces@.take(p + 1)[i].buildings@).contains(x));
                    }
                    if text_set(names@).contains(x) {
                        assert(provinces@.take(p + 1)[p as int] == provinces@[p as int]);
                        assert(text_set(provinces@.take(p + 1)[p as int].buildings@).contains(x));
                    }
                }
                assert(text_set(out@) =~= all_buildings(provinces@.take(p + 1)));
            }
            p = p + 1;
        }
        proof {
            assert(provinces@.take(p as int) =~= provinces@);
        }
        out
    }

    /// The buildings of a province over time: first those it started with,
    /// as built at the start of the game, then those built or torn down on
    /// each date of its history, in order. Only keys that name a building
    /// standing somewhere in the world count.
    pub fn province_building_history(&self, province: &ProvinceOwnership) -> (r: Vec<BuildingEvent>)
        ensures
            buildings_match(
                r@,
                initial_buildings(
                    province.initial_flags@,
                    all_buildings(self.spec_save().provinces@),
                    self.spec_save().start_date,
                ) + dated_buildings(province.events@, all_buildings(self.spec_save().provinces@)),
            ),
    {
        let buildings = self.built_buildings();
        let ghost built = all_buildings(self.spec_save().provinces@);
        let start = self.save().start_date;
        let flags = &province.initial_flags;
        let mut out: Vec<BuildingEvent> = Vec::new();
        let mut k: usize = 0;
        proof {
            assert(flags@.take(0) =~= Seq::<String>::empty());
        }
        while k < flags.len()
            invariant
                k <= flags@.len(),
                text_set(buildings@) == built,
                start == self.spec_save().start_date,
                buildings_match(out@, initial_buildings(flags@.take(k as int), built, start)),
            decreases flags@.len() - k,
        {
            proof {
                assert(flags@.take(k + 1).drop_last() =~= flags@.take(k as int));
                assert(flags@.take(k + 1).last() == flags@[k as int]);
            }
            if has_text(&buildings, &flags[k]) {
                out.push(
                    BuildingEvent {
                        building: flags[k].clone(),
                        date: start,
                        action: BuildingConstruction::Constructed,
                    },
                );
            }
            k = k + 1;
        }
        proof {
            assert(flags@.take(k as int) =~= flags@);
        }
        let ghost initial = initial_buildings(flags@, built, start);
        let entries = &province.events;
        let mut i: usize = 0;
        proof {
            assert(entries@.take(0) =~= Seq::<(Eu4Date, Vec<ProvinceChange>)>::empty());
            assert(initial + dated_buildings(entries@.take(0), built) =~= initial);
        }
        while i < entries.len()
            invariant
                i <= entries@.len(),
                text_set(buildings@) == built,
                initial == initial_buildings(flags@, built, start),
                buildings_match(out@, initial + dated_buildings(entries@.take(i as int), built)),
            decreases entries@.len() - i,
        {
            let date = entries[i].0;
            let events = &entries[i].1;
            let ghost before = initial + dated_buildings(entries@.take(i as int), built);
            proof {
                assert(entries@.take(i + 1).drop_last() =~= entries@.take(i as int));
                assert(entries@.take(i + 1).last() == entries@[i as int]);
                assert(events@.take(0) =~= Seq::<ProvinceChange>::empty());
                assert(before + event_buildings(date, events@.take(0), built) =~= before);
            }
            let mut e: usize = 0;
            while e < events.len()
                invariant
                    e <= events@.len(),
                    text_set(buildings@) == built,
                    buildings_match(out@, before + event_buildings(date, events@.take(e as int), built)),
                decreases events@.len() - e,
            {
                let ghost prev = event_buildings(date, events@.take(e as int), built);
                proof {
                    assert(events@.take(e + 1).drop_last() =~= events@.take(e as int));
                    assert(events@.take(e + 1).last() == events@[e as int]);
                }
                match &events[e] {
                    ProvinceChange::Flag(key, x) => {
                        if has_text(&buildings, key) {
                            let action = if *x {
                                BuildingConstruction::Constructed
                            } else {
                                BuildingConstruction::Destroyed
                            };
                            out.push(BuildingEvent { building: key.clone(), date, action });
                            proof {
                                assert(before + prev.push((key@, date, action)) =~= (before + prev).push(
                                    (key@, date, action),
                                ));
                            }
                        }
                    },
                    _ => {},
                }
                e = e + 1;
            }
            proof {
                assert(events@.take(e as int) =~= events@);
                assert(initial + dated_buildings(entries@.take(i + 1), built) =~= before
                    + event_buildings(date, events@, built));
            }
            i = i + 1;
        }
        proof {
            assert(entries@.take(i as int) =~= entries@);
        }
        out
    }
}

} // verus!
