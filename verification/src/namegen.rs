//! Name synthesis for towns, buildings and inhabitants.
//!
//! Every name is composed from words drawn uniformly out of externally
//! supplied word lists, through the one seeded random source the whole
//! generation run threads; an empty list degrades to the sentinel `"NO DATA"`
//! instead of failing.  Each executable function is pinned to a spec mirror
//! so that the drawn names are a function of the random state alone.
use vstd::prelude::*;
use vstd::string::*;

use crate::entities::{BuildingType, NpcSex};
use crate::rng::{rng_next_index, stdrng_gen_index, stdrng_state};

verus! {

/// The sentinel substituted for a draw from an empty word list.
pub open spec fn spec_no_data() -> Seq<char> {
    "NO DATA"@
}

/// One word draw: uniform over the list, or the sentinel (with the state
/// untouched) when the list is empty.
pub open spec fn spec_pick_word(state: int, words: Seq<Seq<char>>) -> (Seq<char>, int) {
    if words.len() == 0 {
        (spec_no_data(), state)
    } else {
        let (s2, i) = rng_next_index(state, 0, words.len() as usize);
        if i < words.len() {
            (words[i as int], s2)
        } else {
            (spec_no_data(), s2)
        }
    }
}

/// Draw one word uniformly from `words`; an empty list yields the sentinel.
pub fn pick_word(rng: &mut rand::rngs::StdRng, words: &Vec<String>) -> (r: String)
    ensures
        ({
            let (w, s2) = spec_pick_word(stdrng_state(*old(rng)), words.deep_view());
            r@ == w && stdrng_state(*final(rng)) == s2
        }),
{
    if words.len() == 0 {
        "NO DATA".to_owned()
    } else {
        let i = stdrng_gen_index(rng, 0, words.len());
        words[i].clone()
    }
}

/// A town name: `"<prefix> <root><suffix>"`, three draws in that order.
pub open spec fn spec_town_name(
    state: int,
    prefixes: Seq<Seq<char>>,
    roots: Seq<Seq<char>>,
    suffixes: Seq<Seq<char>>,
) -> (Seq<char>, int) {
    let (p, s1) = spec_pick_word(state, prefixes);
    let (r0, s2) = spec_pick_word(s1, roots);
    let (sf, s3) = spec_pick_word(s2, suffixes);
    (p + " "@ + r0 + sf, s3)
}

/// Compose a town name from a drawn prefix, root and suffix.
pub fn generate_town_name(
    rng: &mut rand::rngs::StdRng,
    prefixes: &Vec<String>,
    roots: &Vec<String>,
    suffixes: &Vec<String>,
) -> (r: String)
    ensures
        ({
            let (n, s2) = spec_town_name(
                stdrng_state(*old(rng)),
                prefixes.deep_view(),
                roots.deep_view(),
                suffixes.deep_view(),
            );
            r@ == n && stdrng_state(*final(rng)) == s2
        }),
{
    let prefix = pick_word(rng, prefixes);
    let root = pick_word(rng, roots);
    let suffix = pick_word(rng, suffixes);
    let mut name = prefix;
    name.append(" ");
    name.append(root.as_str());
    name.append(suffix.as_str());
    name
}

/// Whether `c` ends the family-name token of a building name.
pub open spec fn spec_is_name_sep(c: char) -> bool {
    c == ' ' || c == '\''
}

/// The first separator position at or after `i`, or the end of the name.
pub open spec fn spec_prefix_end(s: Seq<char>, i: nat) -> nat
    decreases s.len() - i,
    when i <= s.len()
{
    if i >= s.len() {
        i
    } else if spec_is_name_sep(s[i as int]) {
        i
    } else {
        spec_prefix_end(s, i + 1)
    }
}

/// The family name of a building name: the token before the first space or
/// apostrophe.
pub open spec fn spec_family_prefix(s: Seq<char>) -> Seq<char> {
    s.take(spec_prefix_end(s, 0) as int)
}

/// Extract the family name from a building name.
pub fn family_prefix(name: &str) -> (r: String)
    ensures
        r@ == spec_family_prefix(name@),
{
    let len = name.unicode_len();
    let mut i: usize = 0;
    loop
        invariant_except_break
            i <= len,
            len == name@.len(),
            spec_prefix_end(name@, 0) == spec_prefix_end(name@, i as nat),
        ensures
            i <= name@.len() && spec_prefix_end(name@, 0) == i,
        decreases len - i,
    {
        if i >= len {
            break ;
        }
        let c = name.get_char(i);
        if c == ' ' || c == '\'' {
            break ;
        }
        i = i + 1;
    }
    name.substring_char(0, i).to_owned()
}

/// A building name, by category: `"<surname> Residence"`, `"<surname>'s
/// <shop>"`, a tavern fragment verbatim, or `"Temple of the <fragment>"`.
pub open spec fn spec_building_name(
    state: int,
    building_type: BuildingType,
    surnames: Seq<Seq<char>>,
    shops: Seq<Seq<char>>,
    taverns: Seq<Seq<char>>,
    temples: Seq<Seq<char>>,
) -> (Seq<char>, int) {
    match building_type {
        BuildingType::Residence => {
            let (w, s1) = spec_pick_word(state, surnames);
            (w + " Residence"@, s1)
        },
        BuildingType::Shop => {
            let (w, s1) = spec_pick_word(state, surnames);
            let (sh, s2) = spec_pick_word(s1, shops);
            (w + "'s "@ + sh, s2)
        },
        BuildingType::Tavern => spec_pick_word(state, taverns),
        BuildingType::Temple => {
            let (w, s1) = spec_pick_word(state, temples);
            ("Temple of the "@ + w, s1)
        },
    }
}

/// Compose a building name for the given category.
pub fn generate_building_name(
    rng: &mut rand::rngs::StdRng,
    building_type: &BuildingType,
    surnames: &Vec<String>,
    shops: &Vec<String>,
    taverns: &Vec<String>,
    temples: &Vec<String>,
) -> (r: String)
    ensures
        ({
            let (n, s2) = spec_building_name(
                stdrng_state(*old(rng)),
                *building_type,
                surnames.deep_view(),
                shops.deep_view(),
                taverns.deep_view(),
                temples.deep_view(),
            );
            r@ == n && stdrng_state(*final(rng)) == s2
        }),
{
    match building_type {
        BuildingType::Residence => {
            let mut name = pick_word(rng, surnames);
            name.append(" Residence");
            name
        },
        BuildingType::Shop => {
            let mut name = pick_word(rng, surnames);
            let shop = pick_word(rng, shops);
            name.append("'s ");
            name.append(shop.as_str());
            name
        },
        BuildingType::Tavern => pick_word(rng, taverns),
        BuildingType::Temple => {
            let fragment = pick_word(rng, temples);
            let mut name = "Temple of the ".to_owned();
            name.append(fragment.as_str());
            name
        },
    }
}

/// An inhabitant name: a first name drawn by sex, then a family part decided
/// by the building's category — the building's own family name for a
/// residence or shop, an independently drawn surname for a tavern, and
/// `"<firstname> of the <building-name>"` for a temple.
pub open spec fn spec_npc_name(
    state: int,
    building_name: Seq<char>,
    building_type: BuildingType,
    npc_sex: NpcSex,
    names_male: Seq<Seq<char>>,
    names_female: Seq<Seq<char>>,
    names_unisex: Seq<Seq<char>>,
    surnames: Seq<Seq<char>>,
) -> (Seq<char>, int) {
    let (first, s1) = match npc_sex {
        NpcSex::Male => spec_pick_word(state, names_male),
        NpcSex::Female => spec_pick_word(state, names_female),
        NpcSex::Unisex => spec_pick_word(state, names_unisex),
    };
    match building_type {
        BuildingType::Residence => (first + " "@ + spec_family_prefix(building_name), s1),
        BuildingType::Shop => (first + " "@ + spec_family_prefix(building_name), s1),
        BuildingType::Tavern => {
            let (sur, s2) = spec_pick_word(s1, surnames);
            (first + " "@ + sur, s2)
        },
        BuildingType::Temple => (first + " of the "@ + building_name, s1),
    }
}

/// Compose an inhabitant name for the given sex and building.
pub fn generate_npc_name(
    rng: &mut rand::rngs::StdRng,
    building_name: &str,
    building_type: &BuildingType,
    npc_sex: &NpcSex,
    names_male: &Vec<String>,
    names_female: &Vec<String>,
    names_unisex: &Vec<String>,
    surnames: &Vec<String>,
) -> (r: String)
    ensures
        ({
            let (n, s2) = spec_npc_name(
                stdrng_state(*old(rng)),
                building_name@,
                *building_type,
                *npc_sex,
                names_male.deep_view(),
                names_female.deep_view(),
                names_unisex.deep_view(),
                surnames.deep_view(),
            );
            r@ == n && stdrng_state(*final(rng)) == s2
        }),
{
    let firstname = match npc_sex {
        NpcSex::Male => pick_word(rng, names_male),
        NpcSex::Female => pick_word(rng, names_female),
        NpcSex::Unisex => pick_word(rng, names_unisex),
    };
    match building_type {
        BuildingType::Residence => {
            let family = family_prefix(building_name);
            let mut name = firstname;
            name.append(" ");
            name.append(family.as_str());
            name
        },
        BuildingType::Shop => {
            let family = family_prefix(building_name);
            let mut name = firstname;
            name.append(" ");
            name.append(family.as_str());
            name
        },
        BuildingType::Tavern => {
            let surname = pick_word(rng, surnames);
            let mut name = firstname;
            name.append(" ");
            name.append(surname.as_str());
            name
        },
        BuildingType::Temple => {
            let mut name = firstname;
            name.append(" of the ");
            name.append(building_name);
            name
        },
    }
}

} // verus!
