//! Choosing the countries that a query is about: players, great powers and
//! every country they grew out of.
use crate::country_tag::CountryTag;
use crate::models::Country;
use crate::query::{
    all_player_tags, country_index, distinct_tags, find_country, insert_tag, tag_set, text_set,
    CountryQuery, Query,
};
use vstd::prelude::*;
use vstd::string::StringExecFns;

verus! {

/// Whether some country has the tag.
pub open spec fn in_countries(cs: Seq<(CountryTag, Country)>, t: Seq<char>) -> bool {
    country_index(cs, t) is Some
}

/// The tags that the first country with tag `t` grew out of.
pub open spec fn prevs_of(cs: Seq<(CountryTag, Country)>, t: Seq<char>) -> Set<Seq<char>> {
    match country_index(cs, t) {
        Some(k) => tag_set(cs[k].1.previous_country_tags@),
        None => Set::empty(),
    }
}

pub proof fn lemma_country_index(cs: Seq<(CountryTag, Country)>, t: Seq<char>)
    ensures
        match country_index(cs, t) {
            Some(k) => 0 <= k < cs.len() && cs[k].0@ == t,
            None => forall|k: int| 0 <= k < cs.len() ==> (#[trigger] cs[k]).0@ != t,
        },
    decreases cs.len(),
{
    if cs.len() > 0 && cs[0].0@ != t {
        lemma_country_index(cs.skip(1), t);
        match country_index(cs.skip(1), t) {
            Some(k) => {
                assert(cs.skip(1)[k] == cs[k + 1]);
            },
            None => {
                assert forall|k: int| 0 <= k < cs.len() implies (#[trigger] cs[k]).0@ != t by {
                    if k > 0 {
                        assert(cs.skip(1)[k - 1] == cs[k]);
                    }
                }
            },
        }
    }
}

/// How many countries have a tag outside `s`.
pub open spec fn missing(cs: Seq<(CountryTag, Country)>, s: Set<Seq<char>>) -> nat
    decreases cs.len(),
{
    if cs.len() == 0 {
        0
    } else {
        missing(cs.drop_last(), s) + if s.contains(cs.last().0@) {
            0nat
        } else {
            1nat
        }
    }
}

proof fn lemma_missing_mono(cs: Seq<(CountryTag, Country)>, s1: Set<Seq<char>>, s2: Set<Seq<char>>)
    requires
        s1.subset_of(s2),
    ensures
        missing(cs, s2) <= missing(cs, s1),
    decreases cs.len(),
{
    if cs.len() > 0 {
        lemma_missing_mono(cs.drop_last(), s1, s2);
    }
}

proof fn lemma_missing_strict(
    cs: Seq<(CountryTag, Country)>,
    s1: Set<Seq<char>>,
    s2: Set<Seq<char>>,
    k: int,
)
    requires
        s1.subset_of(s2),
        0 <= k < cs.len(),
        s2.contains(cs[k].0@),
        !s1.contains(cs[k].0@),
    ensures
        missing(cs, s2) < missing(cs, s1),
    decreases cs.len(),
{
    if k < cs.len() - 1 {
        assert(cs.drop_last()[k] == cs[k]);
        lemma_missing_strict(cs.drop_last(), s1, s2, k);
    } else {
        lemma_missing_mono(cs.drop_last(), s1, s2);
    }
}

proof fn lemma_prefix_subset(a: Seq<CountryTag>, b: Seq<CountryTag>)
    requires
        a.len() <= b.len(),
        b.take(a.len() as int) == a,
    ensures
        tag_set(a).subset_of(tag_set(b)),
{
    assert forall|x: Seq<char>| tag_set(a).contains(x) implies tag_set(b).contains(x) by {
        let w = choose|w: int| 0 <= w < a.len() && (#[trigger] a[w])@ == x;
        assert(b.take(a.len() as int)[w] == b[w]);
        assert(b[w]@ == x);
    }
}

/// Whether the tags appended from `old` to `new` are those that a search
/// from `tag`, whose country is `country`, reaches through the tags that
/// countries grew out of without passing through a tag of `old`: the tag
/// itself comes first unless it was there already; every other appended tag
/// is a country grown out of the tag's country or out of a country appended
/// before it; and each of these countries, with the tag's, has all the
/// countries it grew out of in `new`.
pub open spec fn explores(
    cs: Seq<(CountryTag, Country)>,
    tag: Seq<char>,
    country: Country,
    old: Seq<CountryTag>,
    new: Seq<CountryTag>,
) -> bool {
    &&& old.len() <= new.len()
    &&& new.take(old.len() as int) == old
    &&& distinct_tags(new)
    &&& tag_set(new).contains(tag)
    &&& !tag_set(old).contains(tag) ==> new[old.len() as int]@ == tag
    &&& forall|p: Seq<char>|
        #[trigger] tag_set(country.previous_country_tags@).contains(p) && in_countries(cs, p)
            ==> tag_set(new).contains(p)
    &&& forall|i: int|
        old.len() <= i < new.len() && (#[trigger] new[i])@ != tag ==> appended_ok(
            cs,
            tag,
            country,
            old,
            new,
            i,
        )
}

/// What holds of the tag appended at `i` in a search from `tag`: it is a
/// country, grown out of by the tag's country or by a country appended
/// before it, and the countries it grew out of are all in `new`.
pub open spec fn appended_ok(
    cs: Seq<(CountryTag, Country)>,
    tag: Seq<char>,
    country: Country,
    old: Seq<CountryTag>,
    new: Seq<CountryTag>,
    i: int,
) -> bool {
    &&& justified(cs, tag, country, old, new, i)
    &&& forall|p: Seq<char>|
        #[trigger] prevs_of(cs, new[i]@).contains(p) && in_countries(cs, p) ==> tag_set(
            new,
        ).contains(p)
}

/// The tag appended at `i` in a search from `tag` is a country grown out of
/// by the tag's country or by a country appended before it.
pub open spec fn justified(
    cs: Seq<(CountryTag, Country)>,
    tag: Seq<char>,
    country: Country,
    old: Seq<CountryTag>,
    new: Seq<CountryTag>,
    i: int,
) -> bool {
    &&& in_countries(cs, new[i]@)
    &&& tag_set(country.previous_country_tags@).contains(new[i]@) || exists|j: int|
        old.len() <= j < i && new[j]@ != tag && #[trigger] prevs_of(cs, new[j]@).contains(
            new[i]@,
        )
}

/// Whether the tag is among the tags.
fn contains_tag(v: &Vec<CountryTag>, t: &CountryTag) -> (r: bool)
    ensures
        r == tag_set(v@).contains(t@),
{
    let mut k: usize = 0;
    while k < v.len()
        invariant
            k <= v@.len(),
            forall|j: int| 0 <= j < k ==> (#[trigger] v@[j])@ != t@,
        decreases v@.len() - k,
    {
        if v[k].same_as(t) {
            return true;
        }
        k = k + 1;
    }
    false
}

/// Whether step `k` of `path` is a country outside `s` that the country
/// before it (the one of `from` for the first step) grew out of.
pub open spec fn link_ok(
    cs: Seq<(CountryTag, Country)>,
    s: Set<Seq<char>>,
    from: Seq<char>,
    path: Seq<Seq<char>>,
    k: int,
) -> bool {
    &&& in_countries(cs, path[k])
    &&& !s.contains(path[k])
    &&& prevs_of(
        cs,
        if k == 0 {
            from
        } else {
            path[k - 1]
        },
    ).contains(path[k])
}

/// Whether `path` leads from `from` through countries outside `s`, each
/// grown out of by the one before it.
pub open spec fn chain_ok(
    cs: Seq<(CountryTag, Country)>,
    s: Set<Seq<char>>,
    from: Seq<char>,
    path: Seq<Seq<char>>,
) -> bool {
    &&& path.len() >= 1
    &&& forall|k: int| 0 <= k < path.len() ==> #[trigger] link_ok(cs, s, from, path, k)
}

/// The countries that `from` grew out of, directly or through others,
/// without passing through `s`.
pub open spec fn reach(cs: Seq<(CountryTag, Country)>, s: Set<Seq<char>>, from: Seq<char>) -> Set<
    Seq<char>,
> {
    Set::new(
        |x: Seq<char>|
            exists|path: Seq<Seq<char>>| #[trigger] chain_ok(cs, s, from, path) && path.last() == x,
    )
}

/// Whether `x` is the great power `cs[i]` or a country it grew out of
/// without passing through `s`.
pub open spec fn great_covers(cs: Seq<(CountryTag, Country)>, s: Set<Seq<char>>, i: int, x: Seq<char>) -> bool {
    cs[i].1.is_great_power && (x == cs[i].0@ || reach(cs, s, cs[i].0@).contains(x))
}

/// The great powers among the first `n` countries, with every country
/// they grew out of without passing through `s`.
pub open spec fn great_reach_upto(cs: Seq<(CountryTag, Country)>, s: Set<Seq<char>>, n: int) -> Set<
    Seq<char>,
> {
    Set::new(|x: Seq<char>| exists|i: int| 0 <= i < n && #[trigger] great_covers(cs, s, i, x))
}

/// The countries that a list of queries selects, starting from none:
/// `Players` adds the tags that players played, `Greats` adds the great
/// powers and every country they grew out of without passing through a
/// country selected before.
pub open spec fn query_set(
    cs: Seq<(CountryTag, Country)>,
    players: Set<Seq<char>>,
    queries: Seq<CountryQuery>,
) -> Set<Seq<char>>
    decreases queries.len(),
{
    if queries.len() == 0 {
        Set::empty()
    } else {
        let r = query_set(cs, players, queries.drop_last());
        match queries.last() {
            CountryQuery::Players => r.union(players),
            CountryQuery::Greats => r.union(great_reach_upto(cs, r, cs.len() as int)),
        }
    }
}

/// Whether every country of `u` outside `s` has the countries it grew out
/// of in `u`.
pub open spec fn closed_beyond(cs: Seq<(CountryTag, Country)>, s: Set<Seq<char>>, u: Set<Seq<char>>) -> bool {
    forall|x: Seq<char>, p: Seq<char>|
        u.contains(x) && !s.contains(x) && #[trigger] prevs_of(cs, x).contains(p) && in_countries(
            cs,
            p,
        ) ==> u.contains(p)
}

pub open spec fn distinct_country_tags(cs: Seq<(CountryTag, Country)>) -> bool {
    forall|a: int, b: int|
        0 <= a < b < cs.len() ==> (#[trigger] cs[a]).0@ != (#[trigger] cs[b]).0@
}

proof fn lemma_own_index(cs: Seq<(CountryTag, Country)>, c: int)
    requires
        distinct_country_tags(cs),
        0 <= c < cs.len(),
    ensures
        country_index(cs, cs[c].0@) == Some(c),
        prevs_of(cs, cs[c].0@) == tag_set(cs[c].1.previous_country_tags@),
        in_countries(cs, cs[c].0@),
{
    lemma_country_index(cs, cs[c].0@);
    match country_index(cs, cs[c].0@) {
        Some(k) => {
            if k < c {
                assert(cs[k].0@ != cs[c].0@);
            } else if k > c {
                assert(cs[c].0@ != cs[k].0@);
            }
        },
        None => {
            assert(cs[c].0@ != cs[c].0@);
        },
    }
}

proof fn lemma_appended_not_old(old: Seq<CountryTag>, new: Seq<CountryTag>, i: int)
    requires
        old.len() <= i < new.len(),
        new.take(old.len() as int) == old,
        distinct_tags(new),
    ensures
        !tag_set(old).contains(new[i]@),
{
    if tag_set(old).contains(new[i]@) {
        let w = choose|w: int| 0 <= w < old.len() && (#[trigger] old[w])@ == new[i]@;
        assert(new.take(old.len() as int)[w] == new[w]);
        assert(new[w]@ != new[i]@);
    }
}

proof fn lemma_appended_path(
    cs: Seq<(CountryTag, Country)>,
    g: Seq<char>,
    c: Country,
    old: Seq<CountryTag>,
    new: Seq<CountryTag>,
    i: int,
) -> (path: Seq<Seq<char>>)
    requires
        old.len() <= new.len(),
        forall|ii: int| old.len() <= ii < new.len() ==> !tag_set(old).contains((#[trigger] new[ii])@),
        forall|ii: int|
            old.len() <= ii < new.len() && (#[trigger] new[ii])@ != g ==> justified(
                cs,
                g,
                c,
                old,
                new,
                ii,
            ),
        tag_set(c.previous_country_tags@) == prevs_of(cs, g),
        old.len() <= i < new.len(),
        new[i]@ != g,
    ensures
        chain_ok(cs, tag_set(old), g, path),
        path.last() == new[i]@,
    decreases i,
{
    assert(justified(cs, g, c, old, new, i));
    assert(!tag_set(old).contains(new[i]@));
    if tag_set(c.previous_country_tags@).contains(new[i]@) {
        let path = seq![new[i]@];
        assert(link_ok(cs, tag_set(old), g, path, 0));
        path
    } else {
        let j = choose|j: int|
            old.len() <= j < i && new[j]@ != g && #[trigger] prevs_of(cs, new[j]@).contains(
                new[i]@,
            );
        let pj = lemma_appended_path(cs, g, c, old, new, j);
        let path = pj.push(new[i]@);
        assert forall|k: int| 0 <= k < path.len() implies #[trigger] link_ok(
            cs,
            tag_set(old),
            g,
            path,
            k,
        ) by {
            if k < pj.len() {
                assert(link_ok(cs, tag_set(old), g, pj, k));
                assert(path[k] == pj[k]);
                if k > 0 {
                    assert(path[k - 1] == pj[k - 1]);
                }
            } else {
                assert(path[k - 1] == pj.last());
            }
        }
        path
    }
}

proof fn lemma_path_in_new(
    cs: Seq<(CountryTag, Country)>,
    g: Seq<char>,
    c: Country,
    old: Seq<CountryTag>,
    new: Seq<CountryTag>,
    path: Seq<Seq<char>>,
    k: int,
)
    requires
        explores(cs, g, c, old, new),
        tag_set(c.previous_country_tags@) == prevs_of(cs, g),
        chain_ok(cs, tag_set(old), g, path),
        0 <= k < path.len(),
    ensures
        tag_set(new).contains(path[k]),
    decreases k,
{
    assert(link_ok(cs, tag_set(old), g, path, k));
    if k == 0 {
        assert(tag_set(c.previous_country_tags@).contains(path[0]));
    } else {
        lemma_path_in_new(cs, g, c, old, new, path, k - 1);
        assert(link_ok(cs, tag_set(old), g, path, k - 1));
        let x = path[k - 1];
        if x == g {
            assert(tag_set(c.previous_country_tags@).contains(path[k]));
        } else {
            let w = choose|w: int| 0 <= w < new.len() && (#[trigger] new[w])@ == x;
            if w < old.len() {
                assert(new.take(old.len() as int)[w] == new[w]);
                assert(old[w]@ == x);
                assert(tag_set(old).contains(x));
            }
            assert(appended_ok(cs, g, c, old, new, w));
        }
    }
}

/// One search from `g` adds `g` and exactly the countries reachable from it
/// without passing through what was there.
proof fn lemma_explores_adds_reach(
    cs: Seq<(CountryTag, Country)>,
    g: Seq<char>,
    c: Country,
    old: Seq<CountryTag>,
    new: Seq<CountryTag>,
)
    requires
        explores(cs, g, c, old, new),
        tag_set(c.previous_country_tags@) == prevs_of(cs, g),
    ensures
        tag_set(new) == tag_set(old).insert(g).union(reach(cs, tag_set(old), g)),
{
    let so = tag_set(old);
    assert forall|x: Seq<char>| #[trigger] tag_set(new).contains(x) implies so.insert(g).union(
        reach(cs, so, g),
    ).contains(x) by {
        let w = choose|w: int| 0 <= w < new.len() && (#[trigger] new[w])@ == x;
        if w < old.len() {
            assert(new.take(old.len() as int)[w] == new[w]);
            assert(old[w]@ == x);
        } else if x != g {
            assert forall|ii: int|
                old.len() <= ii < new.len() && (#[trigger] new[ii])@ != g implies justified(
                    cs,
                    g,
                    c,
                    old,
                    new,
                    ii,
                ) by {
                assert(appended_ok(cs, g, c, old, new, ii));
            }
            assert forall|ii: int| old.len() <= ii < new.len() implies !tag_set(old).contains(
                (#[trigger] new[ii])@,
            ) by {
                lemma_appended_not_old(old, new, ii);
            }
            let path = lemma_appended_path(cs, g, c, old, new, w);
            assert(reach(cs, so, g).contains(x));
        }
    }
    assert forall|x: Seq<char>| so.insert(g).union(reach(cs, so, g)).contains(x) implies #[trigger] tag_set(
        new,
    ).contains(x) by {
        if so.contains(x) {
            let w = choose|w: int| 0 <= w < old.len() && (#[trigger] old[w])@ == x;
            assert(new.take(old.len() as int)[w] == new[w]);
            assert(new[w]@ == x);
        } else if x != g {
            let path = choose|path: Seq<Seq<char>>| #[trigger] chain_ok(cs, so, g, path) && path.last() == x;
            lemma_path_in_new(cs, g, c, old, new, path, path.len() - 1);
        }
    }
    assert(tag_set(new) =~= so.insert(g).union(reach(cs, so, g)));
}

proof fn lemma_reach_mono(cs: Seq<(CountryTag, Country)>, s1: Set<Seq<char>>, s2: Set<Seq<char>>, g: Seq<char>)
    requires
        s1.subset_of(s2),
    ensures
        reach(cs, s2, g).subset_of(reach(cs, s1, g)),
{
    assert forall|x: Seq<char>| reach(cs, s2, g).contains(x) implies reach(cs, s1, g).contains(x) by {
        let path = choose|path: Seq<Seq<char>>| #[trigger] chain_ok(cs, s2, g, path) && path.last() == x;
        assert forall|k: int| 0 <= k < path.len() implies #[trigger] link_ok(cs, s1, g, path, k) by {
            assert(link_ok(cs, s2, g, path, k));
        }
        assert(chain_ok(cs, s1, g, path));
    }
}

proof fn lemma_tail_in(
    cs: Seq<(CountryTag, Country)>,
    s: Set<Seq<char>>,
    u: Set<Seq<char>>,
    g: Seq<char>,
    path: Seq<Seq<char>>,
    k: int,
)
    requires
        closed_beyond(cs, s, u),
        chain_ok(cs, s, g, path),
        0 <= k < path.len(),
        u.contains(path[k]),
    ensures
        u.contains(path.last()),
    decreases path.len() - k,
{
    if k < path.len() - 1 {
        assert(link_ok(cs, s, g, path, k));
        assert(link_ok(cs, s, g, path, k + 1));
        assert(prevs_of(cs, path[k]).contains(path[k + 1]));
        lemma_tail_in(cs, s, u, g, path, k + 1);
    }
}

proof fn lemma_absorb(
    cs: Seq<(CountryTag, Country)>,
    s: Set<Seq<char>>,
    u: Set<Seq<char>>,
    g: Seq<char>,
)
    requires
        s.subset_of(u),
        closed_beyond(cs, s, u),
    ensures
        reach(cs, s, g).subset_of(u.union(reach(cs, u, g))),
{
    assert forall|x: Seq<char>| reach(cs, s, g).contains(x) implies u.union(reach(cs, u, g)).contains(
        x,
    ) by {
        let path = choose|path: Seq<Seq<char>>| #[trigger] chain_ok(cs, s, g, path) && path.last() == x;
        if exists|k: int| 0 <= k < path.len() && u.contains(#[trigger] path[k]) {
            let k = choose|k: int| 0 <= k < path.len() && u.contains(#[trigger] path[k]);
            lemma_tail_in(cs, s, u, g, path, k);
        } else {
            assert forall|k: int| 0 <= k < path.len() implies #[trigger] link_ok(cs, u, g, path, k) by {
                assert(link_ok(cs, s, g, path, k));
                assert(!u.contains(path[k]));
            }
            assert(chain_ok(cs, u, g, path));
        }
    }
}

proof fn lemma_closed_step(
    cs: Seq<(CountryTag, Country)>,
    s: Set<Seq<char>>,
    u: Set<Seq<char>>,
    g: Seq<char>,
)
    requires
        s.subset_of(u),
        closed_beyond(cs, s, u),
    ensures
        closed_beyond(cs, s, u.insert(g).union(reach(cs, s, g))),
{
    let v = u.insert(g).union(reach(cs, s, g));
    assert forall|x: Seq<char>, p: Seq<char>|
        v.contains(x) && !s.contains(x) && #[trigger] prevs_of(cs, x).contains(p) && in_countries(
            cs,
            p,
        ) implies v.contains(p) by {
        if u.contains(x) {
        } else if s.contains(p) {
        } else if x == g {
            let path = seq![p];
            assert(link_ok(cs, s, g, path, 0));
            assert(chain_ok(cs, s, g, path));
        } else {
            let q = choose|q: Seq<Seq<char>>| #[trigger] chain_ok(cs, s, g, q) && q.last() == x;
            let path = q.push(p);
            assert forall|k: int| 0 <= k < path.len() implies #[trigger] link_ok(cs, s, g, path, k) by {
                if k < q.len() {
                    assert(link_ok(cs, s, g, q, k));
                    assert(path[k] == q[k]);
                    if k > 0 {
                        assert(path[k - 1] == q[k - 1]);
                    }
                } else {
                    assert(path[k - 1] == q.last());
                }
            }
            assert(chain_ok(cs, s, g, path));
        }
    }
}

/// Takes `t` out of `out`.
fn remove_tag(out: &mut Vec<CountryTag>, t: &CountryTag)
    requires
        distinct_tags(old(out)@),
    ensures
        distinct_tags(final(out)@),
        tag_set(final(out)@) == tag_set(old(out)@).remove(t@),
{
    let mut kept: Vec<CountryTag> = Vec::new();
    let mut k: usize = 0;
    proof {
        assert(tag_set(kept@) =~= tag_set(out@.take(0)).remove(t@));
    }
    while k < out.len()
        invariant
            k <= out@.len(),
            distinct_tags(out@),
            distinct_tags(kept@),
            tag_set(kept@) == tag_set(out@.take(k as int)).remove(t@),
        decreases out@.len() - k,
    {
        let ghost before = kept@;
        proof {
            assert forall|x: Seq<char>| #[trigger] tag_set(out@.take(k + 1)).contains(x) <==> (tag_set(
                out@.take(k as int),
            ).contains(x) || x == out@[k as int]@) by {
                if tag_set(out@.take(k + 1)).contains(x) {
                    let w = choose|w: int| 0 <= w < k + 1 && (#[trigger] out@.take(k + 1)[w])@ == x;
                    if w < k {
                        assert(out@.take(k as int)[w] == out@.take(k + 1)[w]);
                    }
                }
                if tag_set(out@.take(k as int)).contains(x) {
                    let w = choose|w: int| 0 <= w < k && (#[trigger] out@.take(k as int)[w])@ == x;
                    assert(out@.take(k as int)[w] == out@.take(k + 1)[w]);
                }
                if x == out@[k as int]@ {
                    assert(out@.take(k + 1)[k as int] == out@[k as int]);
                }
            }
        }
        if !out[k].same_as(t) {
            proof {
                assert(!tag_set(before).contains(out@[k as int]@)) by {
                    if tag_set(before).contains(out@[k as int]@) {
                        assert(tag_set(out@.take(k as int)).contains(out@[k as int]@));
                        let w = choose|w: int| 0 <= w < k && (#[trigger] out@.take(k as int)[w])@ == out@[k as int]@;
                        assert(out@.take(k as int)[w] == out@[w]);
                    }
                }
            }
            kept.push(out[k].duplicate());
            proof {
                assert forall|a: int, b: int| 0 <= a < b < kept@.len() implies (#[trigger] kept@[a])@
                    != (#[trigger] kept@[b])@ by {
                    if b == kept@.len() - 1 {
                        assert(kept@[a] == before[a]);
                        assert(tag_set(before).contains(before[a]@));
                    } else {
                        assert(kept@[a] == before[a]);
                        assert(kept@[b] == before[b]);
                    }
                }
                assert forall|x: Seq<char>| #[trigger] tag_set(kept@).contains(x) <==> tag_set(
                    before,
                ).insert(out@[k as int]@).contains(x) by {
                    if tag_set(kept@).contains(x) {
                        let w = choose|w: int| 0 <= w < kept@.len() && (#[trigger] kept@[w])@ == x;
                        if w < before.len() {
                            assert(kept@[w] == before[w]);
                        }
                    }
                    if tag_set(before).contains(x) {
                        let w = choose|w: int| 0 <= w < before.len() && (#[trigger] before[w])@ == x;
                        assert(kept@[w] == before[w]);
                    }
                    if x == out@[k as int]@ {
                        assert(kept@[kept@.len() - 1]@ == x);
                    }
                }
                assert(tag_set(kept@) =~= tag_set(out@.take(k + 1)).remove(t@));
            }
        } else {
            proof {
                assert(tag_set(kept@) =~= tag_set(out@.take(k + 1)).remove(t@));
            }
        }
        k = k + 1;
    }
    proof {
        assert(out@.take(k as int) =~= out@);
    }
    *out = kept;
}

/// Excluded tags are never selected; included tags are, unless excluded;
/// and with a `Greats` query every great power is selected unless excluded.
pub proof fn law_filter_membership(
    cs: Seq<(CountryTag, Country)>,
    players: Set<Seq<char>>,
    queries: Seq<CountryQuery>,
    includes: Set<Seq<char>>,
    excludes: Set<Seq<char>>,
    t: Seq<char>,
)
    ensures
        excludes.contains(t) ==> !query_set(cs, players, queries).union(includes).difference(
            excludes,
        ).contains(t),
        includes.contains(t) && !excludes.contains(t) ==> query_set(cs, players, queries).union(
            includes,
        ).difference(excludes).contains(t),
        queries.contains(CountryQuery::Greats) && !excludes.contains(t) && (exists|i: int|
            0 <= i < cs.len() && cs[i].1.is_great_power && #[trigger] cs[i].0@ == t)
            ==> query_set(cs, players, queries).union(includes).difference(excludes).contains(t),
        queries.contains(CountryQuery::Players) && !excludes.contains(t) && players.contains(t)
            ==> query_set(cs, players, queries).union(includes).difference(excludes).contains(t),
{
    if queries.contains(CountryQuery::Greats) && (exists|i: int|
        0 <= i < cs.len() && cs[i].1.is_great_power && #[trigger] cs[i].0@ == t) {
        let i = choose|i: int| 0 <= i < cs.len() && cs[i].1.is_great_power && #[trigger] cs[i].0@ == t;
        let k = choose|k: int| 0 <= k < queries.len() && queries[k] == CountryQuery::Greats;
        lemma_query_set_grows(cs, players, queries, k);
        assert(great_covers(cs, query_set(cs, players, queries.take(k)), i, t));
    }
    if queries.contains(CountryQuery::Players) && players.contains(t) {
        let k = choose|k: int| 0 <= k < queries.len() && queries[k] == CountryQuery::Players;
        lemma_query_set_grows(cs, players, queries, k);
    }
}

/// What query `k` adds stays selected after the later queries.
proof fn lemma_query_set_grows(
    cs: Seq<(CountryTag, Country)>,
    players: Set<Seq<char>>,
    queries: Seq<CountryQuery>,
    k: int,
)
    requires
        0 <= k < queries.len(),
    ensures
        query_set(cs, players, queries.take(k + 1)).subset_of(query_set(cs, players, queries)),
        queries[k] == CountryQuery::Players ==> players.subset_of(query_set(cs, players, queries)),
        queries[k] == CountryQuery::Greats ==> great_reach_upto(
            cs,
            query_set(cs, players, queries.take(k)),
            cs.len() as int,
        ).subset_of(query_set(cs, players, queries)),
    decreases queries.len(),
{
    assert(queries.take(k + 1).drop_last() =~= queries.take(k));
    if k == queries.len() - 1 {
        assert(queries.take(k + 1) =~= queries);
    } else {
        assert(queries.drop_last().take(k + 1) =~= queries.take(k + 1));
        assert(queries.drop_last().take(k) =~= queries.take(k));
        lemma_query_set_grows(cs, players, queries.drop_last(), k);
    }
}

impl Query {
    /// Adds the tag and, through the tags that countries grew out of, every
    /// country reachable from it without passing through a tag already in
    /// `set`.
    pub fn add_previous_countries(&self, tag: &CountryTag, country: &Country, set: &mut Vec<CountryTag>)
        requires
            distinct_tags(old(set)@),
        ensures
            explores(self.spec_save().countries@, tag@, *country, old(set)@, final(set)@),
        decreases
            missing(self.spec_save().countries@, tag_set(old(set)@)),
            if in_countries(self.spec_save().countries@, tag@) && !tag_set(old(set)@).contains(tag@) {
                0int
            } else {
                1int
            },
    {
        let ghost cs = self.spec_save().countries@;
        let ghost old_set = set@;
        let ghost missing_tag = in_countries(cs, tag@) && !tag_set(old_set).contains(tag@);
        let countries = &self.save().countries;
        insert_tag(set, tag);
        proof {
            lemma_prefix_subset(old_set, set@);
            lemma_missing_mono(cs, tag_set(old_set), tag_set(set@));
            if missing_tag {
                lemma_country_index(cs, tag@);
                let k = country_index(cs, tag@).unwrap();
                lemma_missing_strict(cs, tag_set(old_set), tag_set(set@), k);
            }
        }
        let prevs = &country.previous_country_tags;
        let mut i: usize = 0;
        while i < prevs.len()
            invariant
                old_set == old(set)@,
                cs == self.spec_save().countries@,
                *countries == self.spec_save().countries,
                missing_tag == (in_countries(cs, tag@) && !tag_set(old_set).contains(tag@)),
                i <= prevs@.len(),
                *prevs == country.previous_country_tags,
                distinct_tags(set@),
                old_set.len() <= set@.len(),
                set@.take(old_set.len() as int) == old_set,
                tag_set(set@).contains(tag@),
                !tag_set(old_set).contains(tag@) ==> set@[old_set.len() as int]@ == tag@,
                missing(cs, tag_set(set@)) <= missing(cs, tag_set(old_set)),
                missing_tag ==> missing(cs, tag_set(set@)) < missing(cs, tag_set(old_set)),
                forall|p: Seq<char>|
                    #[trigger] tag_set(prevs@.take(i as int)).contains(p) && in_countries(cs, p)
                        ==> tag_set(set@).contains(p),
                forall|ii: int|
                    old_set.len() <= ii < set@.len() && (#[trigger] set@[ii])@ != tag@ ==> appended_ok(
                        cs,
                        tag@,
                        *country,
                        old_set,
                        set@,
                        ii,
                    ),
            decreases prevs@.len() - i,
        {
            let prev = &prevs[i];
            let ghost before = set@;
            if !contains_tag(set, prev) {
                match find_country(countries, prev) {
                    Some(k) => {
                        proof {
                            lemma_country_index(cs, prev@);
                            assert(in_countries(cs, prev@));
                            assert(!tag_set(before).contains(prev@));
                        }
                        self.add_previous_countries(prev, &countries[k].1, set);
                        proof {
                            lemma_prefix_subset(before, set@);
                            lemma_missing_mono(cs, tag_set(before), tag_set(set@));
                            assert(set@.take(old_set.len() as int) =~= old_set) by {
                                assert forall|j: int| 0 <= j < old_set.len() implies set@[j] == old_set[j] by {
                                    assert(set@.take(before.len() as int)[j] == set@[j]);
                                    assert(before.take(old_set.len() as int)[j] == before[j]);
                                }
                            }
                            if !tag_set(old_set).contains(tag@) {
                                assert(set@[old_set.len() as int] == before[old_set.len() as int]) by {
                                    assert(set@.take(before.len() as int)[old_set.len() as int] == set@[old_set.len() as int]);
                                }
                            }
                            assert(tag_set(prevs@).contains(prev@)) by {
                                assert(prevs@[i as int] == *prev);
                            }
                            assert forall|ii: int|
                                old_set.len() <= ii < set@.len() && (#[trigger] set@[ii])@ != tag@ implies appended_ok(
                                    cs,
                                    tag@,
                                    *country,
                                    old_set,
                                    set@,
                                    ii,
                                ) by {
                                if ii < before.len() {
                                    assert(set@.take(before.len() as int)[ii] == set@[ii]);
                                    assert(appended_ok(cs, tag@, *country, old_set, before, ii));
                                    assert forall|p: Seq<char>|
                                        #[trigger] prevs_of(cs, set@[ii]@).contains(p) && in_countries(cs, p)
                                            implies tag_set(set@).contains(p) by {
                                        assert(tag_set(before).contains(p));
                                    }
                                    if !tag_set(country.previous_country_tags@).contains(set@[ii]@) {
                                        let j = choose|j: int|
                                            old_set.len() <= j < ii && before[j]@ != tag@
                                                && #[trigger] prevs_of(cs, before[j]@).contains(before[ii]@);
                                        assert(set@.take(before.len() as int)[j] == set@[j]);
                                        assert(prevs_of(cs, set@[j]@).contains(set@[ii]@));
                                    }
                                } else {
                                    assert(!tag_set(before).contains(set@[ii]@)) by {
                                        if tag_set(before).contains(set@[ii]@) {
                                            let w = choose|w: int| 0 <= w < before.len() && (#[trigger] before[w])@ == set@[ii]@;
                                            assert(set@.take(before.len() as int)[w] == set@[w]);
                                        }
                                    }
                                    if set@[ii]@ == prev@ {
                                        assert(countries@[k as int] == cs[k as int]);
                                        assert(country_index(cs, prev@) == Some(k as int));
                                        assert(prevs_of(cs, prev@) == tag_set(countries@[k as int].1.previous_country_tags@));
                                    } else {
                                        assert(appended_ok(cs, prev@, countries@[k as int].1, before, set@, ii));
                                        if tag_set(countries@[k as int].1.previous_country_tags@).contains(set@[ii]@) {
                                            let j = before.len() as int;
                                            assert(set@[j]@ == prev@);
                                            assert(prev@ != tag@);
                                            assert(prevs_of(cs, set@[j]@).contains(set@[ii]@));
                                        } else {
                                            let j = choose|j: int|
                                                before.len() <= j < ii && set@[j]@ != prev@
                                                    && #[trigger] prevs_of(cs, set@[j]@).contains(set@[ii]@);
                                            assert(set@[j]@ != tag@) by {
                                                assert(!tag_set(before).contains(set@[j]@)) by {
                                                    if tag_set(before).contains(set@[j]@) {
                                                        let w = choose|w: int| 0 <= w < before.len() && (#[trigger] before[w])@ == set@[j]@;
                                                        assert(set@.take(before.len() as int)[w] == set@[w]);
                                                    }
                                                }
                                            }
                                        }
                                    }
                                }
                            }
                        }
                    },
                    None => {},
                }
            }
            proof {
                assert(set@.take(before.len() as int) =~= before);
                assert forall|p: Seq<char>|
                    #[trigger] tag_set(prevs@.take(i + 1)).contains(p) && in_countries(cs, p)
                        implies tag_set(set@).contains(p) by {
                    let w = choose|w: int| 0 <= w < prevs@.take(i + 1).len() && (#[trigger] prevs@.take(i + 1)[w])@ == p;
                    if w < i {
                        assert(prevs@.take(i as int)[w] == prevs@.take(i + 1)[w]);
                        assert(tag_set(prevs@.take(i as int)).contains(p));
                        assert(tag_set(before).contains(p));
                        lemma_prefix_subset(before, set@);
                    } else {
                        assert(prevs@.take(i + 1)[w] == *prev);
                        lemma_country_index(cs, p);
                    }
                }
            }
            i = i + 1;
        }
        proof {
            assert(prevs@.take(i as int) =~= prevs@);
        }
    }

    /// The countries that the queries select, with the included tags added
    /// and the excluded ones taken out.
    pub fn filter_countries(
        &self,
        query: &[CountryQuery],
        includes: &[String],
        excludes: &[String],
    ) -> (r: Vec<CountryTag>)
        ensures
            distinct_tags(r@),
            tag_set(r@) == query_set(
                self.spec_save().countries@,
                all_player_tags(self.spec_save()),
                query@,
            ).union(text_set(includes@)).difference(text_set(excludes@)),
    {
        let ghost cs = self.spec_save().countries@;
        let ghost players = all_player_tags(self.spec_save());
        let countries = &self.save().countries;
        proof {
            assert(distinct_country_tags(cs));
        }
        let player_countries = self.player_countries();
        let mut set: Vec<CountryTag> = Vec::new();
        let mut qi: usize = 0;
        proof {
            assert(tag_set(set@) =~= Set::<Seq<char>>::empty());
            assert(query@.take(0) =~= Seq::<CountryQuery>::empty());
        }
        while qi < query.len()
            invariant
                qi <= query@.len(),
                cs == self.spec_save().countries@,
                *countries == self.spec_save().countries,
                distinct_country_tags(cs),
                tag_set(player_countries@) == players,
                distinct_tags(set@),
                tag_set(set@) == query_set(cs, players, query@.take(qi as int)),
            decreases query@.len() - qi,
        {
            let ghost r = tag_set(set@);
            proof {
                assert(query@.take(qi + 1).drop_last() =~= query@.take(qi as int));
                assert(query@.take(qi + 1).last() == query@[qi as int]);
            }
            match query[qi] {
                CountryQuery::Players => {
                    let mut j: usize = 0;
                    proof {
                        assert(r.union(tag_set(player_countries@.take(0))) =~= r);
                    }
                    while j < player_countries.len()
                        invariant
                            j <= player_countries@.len(),
                            distinct_tags(set@),
                            tag_set(set@) == r.union(tag_set(player_countries@.take(j as int))),
                        decreases player_countries@.len() - j,
                    {
                        insert_tag(&mut set, &player_countries[j]);
                        proof {
                            assert forall|x: Seq<char>| #[trigger] tag_set(player_countries@.take(j + 1)).contains(x)
                                <==> tag_set(player_countries@.take(j as int)).insert(player_countries@[j as int]@).contains(x) by {
                                if tag_set(player_countries@.take(j + 1)).contains(x) {
                                    let w = choose|w: int| 0 <= w < j + 1 && (#[trigger] player_countries@.take(j + 1)[w])@ == x;
                                    if w < j {
                                        assert(player_countries@.take(j as int)[w] == player_countries@.take(j + 1)[w]);
                                    }
                                }
                                if tag_set(player_countries@.take(j as int)).contains(x) {
                                    let w = choose|w: int| 0 <= w < j && (#[trigger] player_countries@.take(j as int)[w])@ == x;
                                    assert(player_countries@.take(j as int)[w] == player_countries@.take(j + 1)[w]);
                                }
                                if x == player_countries@[j as int]@ {
                                    assert(player_countries@.take(j + 1)[j as int] == player_countries@[j as int]);
                                }
                            }
                            assert(tag_set(set@) =~= r.union(tag_set(player_countries@.take(j + 1))));
                        }
                        j = j + 1;
                    }
                    proof {
                        assert(player_countries@.take(j as int) =~= player_countries@);
                    }
                },
                CountryQuery::Greats => {
                    let mut c: usize = 0;
                    proof {
                        assert(r.union(great_reach_upto(cs, r, 0)) =~= r);
                    }
                    while c < countries.len()
                        invariant
                            c <= countries@.len(),
                            cs == self.spec_save().countries@,
                            *countries == self.spec_save().countries,
                            distinct_country_tags(cs),
                            distinct_tags(set@),
                            r.subset_of(tag_set(set@)),
                            closed_beyond(cs, r, tag_set(set@)),
                            tag_set(set@) == r.union(great_reach_upto(cs, r, c as int)),
                        decreases countries@.len() - c,
                    {
                        let ghost u = tag_set(set@);
                        let ghost before = set@;
                        if countries[c].1.is_great_power {
                            self.add_previous_countries(&countries[c].0, &countries[c].1, &mut set);
                            proof {
                                let g = cs[c as int].0@;
                                assert(countries@[c as int] == cs[c as int]);
                                assert(cs[c as int].1.is_great_power);
                                lemma_own_index(cs, c as int);
                                lemma_explores_adds_reach(cs, g, cs[c as int].1, before, set@);
                                lemma_reach_mono(cs, r, u, g);
                                lemma_absorb(cs, r, u, g);
                                assert(tag_set(set@) =~= u.insert(g).union(reach(cs, r, g)));
                                lemma_closed_step(cs, r, u, g);
                                assert forall|x: Seq<char>| #[trigger] tag_set(set@).contains(x)
                                    <==> r.union(great_reach_upto(cs, r, c + 1)).contains(x) by {
                                    if great_reach_upto(cs, r, c as int).contains(x) {
                                        let i = choose|i: int| 0 <= i < c && #[trigger] great_covers(cs, r, i, x);
                                        assert(0 <= i < c + 1 && great_covers(cs, r, i, x));
                                        assert(great_reach_upto(cs, r, c + 1).contains(x));
                                    }
                                    if x == g || reach(cs, r, g).contains(x) {
                                        let i = c as int;
                                        assert(cs[i].1.is_great_power);
                                        assert(cs[i].0@ == g);
                                        assert(x == cs[i].0@ || reach(cs, r, cs[i].0@).contains(x));
                                        assert(0 <= i < c + 1 && great_covers(cs, r, i, x));
                                        assert(great_reach_upto(cs, r, c + 1).contains(x));
                                    }
                                    if great_reach_upto(cs, r, c + 1).contains(x) {
                                        let i = choose|i: int| 0 <= i < c + 1 && #[trigger] great_covers(cs, r, i, x);
                                        if i < c {
                                            assert(0 <= i < c && great_covers(cs, r, i, x));
                                            assert(great_reach_upto(cs, r, c as int).contains(x));
                                        }
                                    }
                                }
                                assert(tag_set(set@) =~= r.union(great_reach_upto(cs, r, c + 1)));
                            }
                        } else {
                            proof {
                                assert forall|x: Seq<char>| #[trigger] great_reach_upto(cs, r, c + 1).contains(x)
                                    <==> great_reach_upto(cs, r, c as int).contains(x) by {
                                    if great_reach_upto(cs, r, c + 1).contains(x) {
                                        let i = choose|i: int| 0 <= i < c + 1 && #[trigger] great_covers(cs, r, i, x);
                                        assert(i < c);
                                        assert(0 <= i < c && great_covers(cs, r, i, x));
                                    }
                                    if great_reach_upto(cs, r, c as int).contains(x) {
                                        let i = choose|i: int| 0 <= i < c && #[trigger] great_covers(cs, r, i, x);
                                        assert(0 <= i < c + 1 && great_covers(cs, r, i, x));
                                    }
                                }
                                assert(great_reach_upto(cs, r, c + 1) =~= great_reach_upto(cs, r, c as int));
                            }
                        }
                        c = c + 1;
                    }
                },
            }
            qi = qi + 1;
        }
        proof {
            assert(query@.take(qi as int) =~= query@);
        }
        let ghost q = tag_set(set@);
        let mut i: usize = 0;
        proof {
            assert(q.union(text_set(includes@.take(0))) =~= q);
        }
        while i < includes.len()
            invariant
                i <= includes@.len(),
                distinct_tags(set@),
                tag_set(set@) == q.union(text_set(includes@.take(i as int))),
            decreases includes@.len() - i,
        {
            let tag = CountryTag::new(String::from_str(includes[i].as_str()));
            insert_tag(&mut set, &tag);
            proof {
                assert forall|x: Seq<char>| #[trigger] text_set(includes@.take(i + 1)).contains(x)
                    <==> text_set(includes@.take(i as int)).insert(includes@[i as int]@).contains(x) by {
                    if text_set(includes@.take(i + 1)).contains(x) {
                        let w = choose|w: int| 0 <= w < i + 1 && (#[trigger] includes@.take(i + 1)[w])@ == x;
                        if w < i {
                            assert(includes@.take(i as int)[w] == includes@.take(i + 1)[w]);
                        }
                    }
                    if text_set(includes@.take(i as int)).contains(x) {
                        let w = choose|w: int| 0 <= w < i && (#[trigger] includes@.take(i as int)[w])@ == x;
                        assert(includes@.take(i as int)[w] == includes@.take(i + 1)[w]);
                    }
                    if x == includes@[i as int]@ {
                        assert(includes@.take(i + 1)[i as int] == includes@[i as int]);
                    }
                }
                assert(tag_set(set@) =~= q.union(text_set(includes@.take(i + 1))));
            }
            i = i + 1;
        }
        proof {
            assert(includes@.take(i as int) =~= includes@);
        }
        let ghost qi2 = tag_set(set@);
        let mut e: usize = 0;
        proof {
            assert(qi2.difference(text_set(excludes@.take(0))) =~= qi2);
        }
        while e < excludes.len()
            invariant
                e <= excludes@.len(),
                distinct_tags(set@),
                tag_set(set@) == qi2.difference(text_set(excludes@.take(e as int))),
            decreases excludes@.len() - e,
        {
            let tag = CountryTag::new(String::from_str(excludes[e].as_str()));
            remove_tag(&mut set, &tag);
            proof {
                assert forall|x: Seq<char>| #[trigger] text_set(excludes@.take(e + 1)).contains(x)
                    <==> text_set(excludes@.take(e as int)).insert(excludes@[e as int]@).contains(x) by {
                    if text_set(excludes@.take(e + 1)).contains(x) {
                        let w = choose|w: int| 0 <= w < e + 1 && (#[trigger] excludes@.take(e + 1)[w])@ == x;
                        if w < e {
                            assert(excludes@.take(e as int)[w] == excludes@.take(e + 1)[w]);
                        }
                    }
                    if text_set(excludes@.take(e as int)).contains(x) {
                        let w = choose|w: int| 0 <= w < e && (#[trigger] excludes@.take(e as int)[w])@ == x;
                        assert(excludes@.take(e as int)[w] == excludes@.take(e + 1)[w]);
                    }
                    if x == excludes@[e as int]@ {
                        assert(excludes@.take(e + 1)[e as int] == excludes@[e as int]);
                    }
                }
                assert(tag_set(set@) =~= qi2.difference(text_set(excludes@.take(e + 1))));
            }
            e = e + 1;
        }
        proof {
            assert(excludes@.take(e as int) =~= excludes@);
        }
        set
    }
}

} // verus!
