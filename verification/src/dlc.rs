//! Downloadable content.
use crate::strings::str_eq;
use vstd::prelude::*;

verus! {

/// The id of each dlc, by name.
pub open spec fn dlc_id_of(name: Seq<char>) -> Option<i32> {
    if name == "Conquest of Paradise"@ {
        Some(10i32)
    } else if name == "Wealth of Nations"@ {
        Some(18i32)
    } else if name == "Res Publica"@ {
        Some(21i32)
    } else if name == "Art of War"@ {
        Some(27i32)
    } else if name == "El Dorado"@ {
        Some(33i32)
    } else if name == "Common Sense"@ {
        Some(39i32)
    } else if name == "The Cossacks"@ {
        Some(46i32)
    } else if name == "Mare Nostrum"@ {
        Some(55i32)
    } else if name == "Rights of Man"@ {
        Some(60i32)
    } else if name == "Mandate of Heaven"@ {
        Some(66i32)
    } else if name == "Third Rome"@ {
        Some(72i32)
    } else if name == "Cradle of Civilization"@ {
        Some(77i32)
    } else if name == "Rule Britannia"@ {
        Some(84i32)
    } else if name == "Dharma"@ {
        Some(90i32)
    } else if name == "Golden Century"@ {
        Some(95i32)
    } else if name == "Emperor"@ {
        Some(101i32)
    } else if name == "Leviathan"@ {
        Some(106i32)
    } else if name == "Origins"@ {
        Some(110i32)
    } else {
        None
    }
}

/// Map dlc name to its id
///
/// Every dlc has an id. This id is not present in the save file but it can be useful
/// to have the id so one doesn't need to compare strings.
///
/// For more information on IDs see the wiki:
/// <https://eu4.paradoxwikis.com/Downloadable_content>
pub fn dlc_id(name: &str) -> (id: Option<i32>)
    ensures
        id == dlc_id_of(name@),
{
    if str_eq(name, "Conquest of Paradise") {
        Some(10)
    } else if str_eq(name, "Wealth of Nations") {
        Some(18)
    } else if str_eq(name, "Res Publica") {
        Some(21)
    } else if str_eq(name, "Art of War") {
        Some(27)
    } else if str_eq(name, "El Dorado") {
        Some(33)
    } else if str_eq(name, "Common Sense") {
        Some(39)
    } else if str_eq(name, "The Cossacks") {
        Some(46)
    } else if str_eq(name, "Mare Nostrum") {
        Some(55)
    } else if str_eq(name, "Rights of Man") {
        Some(60)
    } else if str_eq(name, "Mandate of Heaven") {
        Some(66)
    } else if str_eq(name, "Third Rome") {
        Some(72)
    } else if str_eq(name, "Cradle of Civilization") {
        Some(77)
    } else if str_eq(name, "Rule Britannia") {
        Some(84)
    } else if str_eq(name, "Dharma") {
        Some(90)
    } else if str_eq(name, "Golden Century") {
        Some(95)
    } else if str_eq(name, "Emperor") {
        Some(101)
    } else if str_eq(name, "Leviathan") {
        Some(106)
    } else if str_eq(name, "Origins") {
        Some(110)
    } else {
        None
    }
}

/// Distinct dlc names have distinct ids, so an id names one dlc.
pub proof fn law_dlc_id_injective(a: Seq<char>, b: Seq<char>)
    requires
        dlc_id_of(a) is Some,
        dlc_id_of(a) == dlc_id_of(b),
    ensures
        a == b,
{
}

/// The dlcs by name, in alphabetical order, and their ids on the Paradox
/// wiki (<https://eu4.paradoxwikis.com/Downloadable_content>).
pub open spec fn wiki_dlcs() -> (Seq<Seq<char>>, Seq<i32>) {
    (
        seq![
            "Art of War"@,
            "Common Sense"@,
            "Conquest of Paradise"@,
            "Cradle of Civilization"@,
            "Dharma"@,
            "El Dorado"@,
            "Emperor"@,
            "Golden Century"@,
            "Leviathan"@,
            "Mandate of Heaven"@,
            "Mare Nostrum"@,
            "Origins"@,
            "Res Publica"@,
            "Rights of Man"@,
            "Rule Britannia"@,
            "The Cossacks"@,
            "Third Rome"@,
            "Wealth of Nations"@,
        ],
        seq![27i32, 39i32, 10i32, 77i32, 90i32, 33i32, 101i32, 95i32, 106i32, 66i32, 55i32, 110i32, 21i32, 60i32, 84i32, 46i32, 72i32, 18i32],
    )
}

/// Each dlc has the id that the wiki gives it, no two dlcs share an id,
/// and any other name has no id.
pub proof fn law_dlc_ids_of_the_wiki(name: Seq<char>)
    ensures
        forall|i: int| 0 <= i < 18 ==> dlc_id_of(#[trigger] wiki_dlcs().0[i]) == Some(wiki_dlcs().1[i]),
        forall|i: int, j: int| 0 <= i < j < 18 ==> wiki_dlcs().1[i] != wiki_dlcs().1[j],
        !wiki_dlcs().0.contains(name) ==> dlc_id_of(name) is None,
{
    reveal_strlit("Conquest of Paradise");
    reveal_strlit("Wealth of Nations");
    reveal_strlit("Res Publica");
    reveal_strlit("Art of War");
    reveal_strlit("El Dorado");
    reveal_strlit("Common Sense");
    reveal_strlit("The Cossacks");
    reveal_strlit("Mare Nostrum");
    reveal_strlit("Rights of Man");
    reveal_strlit("Mandate of Heaven");
    reveal_strlit("Third Rome");
    reveal_strlit("Cradle of Civilization");
    reveal_strlit("Rule Britannia");
    reveal_strlit("Dharma");
    reveal_strlit("Golden Century");
    reveal_strlit("Emperor");
    reveal_strlit("Leviathan");
    reveal_strlit("Origins");
    assert("Dharma"@.len() == 6 && "Dharma"@[0] == 'D');
    assert("Emperor"@.len() == 7 && "Emperor"@[0] == 'E');
    assert("Origins"@.len() == 7 && "Origins"@[0] == 'O');
    assert("El Dorado"@.len() == 9 && "El Dorado"@[0] == 'E');
    assert("Leviathan"@.len() == 9 && "Leviathan"@[0] == 'L');
    assert("Art of War"@.len() == 10 && "Art of War"@[0] == 'A');
    assert("Third Rome"@.len() == 10 && "Third Rome"@[0] == 'T');
    assert("Res Publica"@.len() == 11 && "Res Publica"@[0] == 'R');
    assert("Common Sense"@.len() == 12 && "Common Sense"@[0] == 'C');
    assert("The Cossacks"@.len() == 12 && "The Cossacks"@[0] == 'T');
    assert("Mare Nostrum"@.len() == 12 && "Mare Nostrum"@[0] == 'M');
    assert("Rights of Man"@.len() == 13 && "Rights of Man"@[0] == 'R');
    assert("Rule Britannia"@.len() == 14 && "Rule Britannia"@[0] == 'R');
    assert("Golden Century"@.len() == 14 && "Golden Century"@[0] == 'G');
    assert("Wealth of Nations"@.len() == 17 && "Wealth of Nations"@[0] == 'W');
    assert("Mandate of Heaven"@.len() == 17 && "Mandate of Heaven"@[0] == 'M');
    assert("Conquest of Paradise"@.len() == 20 && "Conquest of Paradise"@[0] == 'C');
    assert("Cradle of Civilization"@.len() == 22 && "Cradle of Civilization"@[0] == 'C');
    let t = wiki_dlcs();
    assert(t.0.len() == 18 && t.1.len() == 18);
    assert forall|i: int| 0 <= i < 18 implies dlc_id_of(#[trigger] t.0[i]) == Some(t.1[i]) by {
        if i == 0 {} else if i == 1 {} else if i == 2 {} else if i == 3 {} else if i == 4 {}
        else if i == 5 {} else if i == 6 {} else if i == 7 {} else if i == 8 {} else if i == 9 {}
        else if i == 10 {} else if i == 11 {} else if i == 12 {} else if i == 13 {}
        else if i == 14 {} else if i == 15 {} else if i == 16 {} else {}
    }
    if !t.0.contains(name) {
        assert forall|i: int| 0 <= i < 18 implies t.0[i] != name by {
            if t.0[i] == name {
                assert(t.0.contains(name));
            }
        }
        assert(name != t.0[0] && name != t.0[1] && name != t.0[2] && name != t.0[3] && name != t.0[4]
            && name != t.0[5] && name != t.0[6] && name != t.0[7] && name != t.0[8] && name != t.0[9]
            && name != t.0[10] && name != t.0[11] && name != t.0[12] && name != t.0[13]
            && name != t.0[14] && name != t.0[15] && name != t.0[16] && name != t.0[17]);
    }
}

} // verus!
