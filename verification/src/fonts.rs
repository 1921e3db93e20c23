//! The font families offered to the user.

use vstd::prelude::*;
use vstd::string::*;
use crate::text::{
    lemma_text_le_antisymmetric, lemma_text_le_reflexive, lemma_text_le_total,
    lemma_text_le_transitive, str_le, text_le,
};

verus! {

/// Whether a family is offered: not one whose name begins with `.` or `@`.
pub open spec fn is_offered(family: Seq<char>) -> bool {
    !(family.len() > 0 && (family[0] == '.' || family[0] == '@'))
}

/// The names of a list of families.
pub open spec fn family_names(families: Seq<String>) -> Seq<Seq<char>> {
    Seq::new(families.len(), |i: int| families[i]@)
}

/// The families offered where the system names none.
pub open spec fn fallback_families() -> Seq<Seq<char>> {
    seq![
        "SimSun"@,
        "Microsoft YaHei"@,
        "SimHei"@,
        "KaiTi"@,
        "FangSong"@,
        "Consolas"@,
        "Segoe UI"@,
    ]
}

/// Whether a system that names these families offers `name`.
pub open spec fn offers(families: Seq<Seq<char>>, name: Seq<char>) -> bool {
    families.contains(name) && is_offered(name)
}

/// Whether a system that names these families offers any.
pub open spec fn offers_any(families: Seq<Seq<char>>) -> bool {
    exists|i: int| 0 <= i < families.len() && is_offered(#[trigger] families[i])
}

/// Each name stands before every later one, and differs from it.
pub open spec fn strictly_ascending(names: Seq<Seq<char>>) -> bool {
    forall|i: int, j: int|
        #![trigger names[i], names[j]]
        0 <= i < j < names.len() ==> text_le(names[i], names[j]) && names[i] != names[j]
}

/// Whether a family is offered.
pub fn is_offered_family(family: &str) -> (r: bool)
    ensures
        r == is_offered(family@),
{
    if family.is_empty() {
        true
    } else {
        let first = family.get_char(0);
        !(first == '.' || first == '@')
    }
}

fn fallback() -> (list: Vec<String>)
    ensures
        family_names(list@) == fallback_families(),
{
    let mut list: Vec<String> = Vec::new();
    list.push(String::from_str("SimSun"));
    list.push(String::from_str("Microsoft YaHei"));
    list.push(String::from_str("SimHei"));
    list.push(String::from_str("KaiTi"));
    list.push(String::from_str("FangSong"));
    list.push(String::from_str("Consolas"));
    list.push(String::from_str("Segoe UI"));
    assert(family_names(list@) =~= fallback_families());
    list
}

/// The list of font families offered, from the families that the system
/// names: those whose names begin with `.` or `@` are left out, the rest is
/// put in ascending order, each name once. Where nothing is left, a fixed
/// list of common families is offered instead.
pub fn get_system_fonts(families: Vec<String>) -> (fonts: Vec<String>)
    ensures
        if offers_any(family_names(families@)) {
            &&& strictly_ascending(family_names(fonts@))
            &&& forall|name: Seq<char>|
                family_names(fonts@).contains(name) <==> offers(family_names(families@), name)
        } else {
            family_names(fonts@) == fallback_families()
        },
{
    let ghost all = family_names(families@);
    let ghost given = families@;
    let mut fonts: Vec<String> = Vec::new();
    for family in iter: families
        invariant
            iter.seq() == given,
            all == family_names(given),
            strictly_ascending(family_names(fonts@)),
            forall|name: Seq<char>|
                family_names(fonts@).contains(name) <==> (exists|i: int|
                    0 <= i < iter.index() && #[trigger] all[i] == name && is_offered(name)),
    {
        let ghost k = iter.index() as int;
        let ghost before = family_names(fonts@);
        assert(all[k] == family@);
        if is_offered_family(family.as_str()) {
            let mut p: usize = 0;
            while p < fonts.len() && !str_le(family.as_str(), fonts[p].as_str())
                invariant
                    p <= fonts.len(),
                    before == family_names(fonts@),
                    strictly_ascending(before),
                    forall|j: int|
                        0 <= j < p ==> text_le(#[trigger] before[j], family@) && before[j]
                            != family@,
                decreases fonts.len() - p,
            {
                proof {
                    lemma_text_le_total(family@, before[p as int]);
                    assert(before[p as int] == fonts@[p as int]@);
                }
                p += 1;
            }
            let ghost reached_end = p == fonts.len();
            proof {
                if !reached_end {
                    assert(before[p as int] == fonts@[p as int]@);
                    assert(text_le(family@, before[p as int]));
                }
            }
            let known = p < fonts.len() && str_le(fonts[p].as_str(), family.as_str());
            if known {
                proof {
                    assert(before[p as int] == fonts@[p as int]@);
                    lemma_text_le_antisymmetric(family@, before[p as int]);
                    assert(before.contains(family@));
                }
            } else {
                fonts.insert(p, family);
                proof {
                    let after = family_names(fonts@);
                    assert(after =~= before.insert(p as int, family@));
                    assert forall|i: int, j: int| 0 <= i < j < after.len() implies text_le(
                        after[i],
                        after[j],
                    ) && after[i] != after[j] by {
                        if j == p {
                            assert(after[i] == before[i]);
                        } else if i == p {
                            assert(after[j] == before[j - 1]);
                            assert(!reached_end);
                            assert(text_le(family@, before[p as int]));
                            assert(!text_le(before[p as int], family@));
                            assert(family@ != before[p as int]) by {
                                if family@ == before[p as int] {
                                    lemma_text_le_reflexive(family@);
                                }
                            }
                            if j - 1 > p {
                                assert(text_le(before[p as int], before[j - 1]) && before[p as int]
                                    != before[j - 1]);
                                lemma_text_le_transitive(family@, before[p as int], before[j - 1]);
                                if family@ == before[j - 1] {
                                    lemma_text_le_antisymmetric(before[p as int], before[j - 1]);
                                }
                            }
                        } else {
                            let i0 = if i < p { i } else { i - 1 };
                            let j0 = if j < p { j } else { j - 1 };
                            assert(after.len() == before.len() + 1);
                            assert(0 <= i0 < j0 < before.len());
                            assert(after[i] == before[i0]);
                            assert(after[j] == before[j0]);
                            assert(text_le(before[i0], before[j0]) && before[i0] != before[j0]);
                        }
                    }
                    assert forall|name: Seq<char>| after.contains(name) <==> (before.contains(name)
                        || name == family@) by {
                        if after.contains(name) {
                            let i = choose|i: int| 0 <= i < after.len() && after[i] == name;
                            if i < p {
                                assert(before[i] == name);
                            } else if i > p {
                                assert(before[i - 1] == name);
                            }
                        }
                        if before.contains(name) {
                            let i = choose|i: int| 0 <= i < before.len() && before[i] == name;
                            if i < p {
                                assert(after[i] == name);
                            } else {
                                assert(after[i + 1] == name);
                            }
                        }
                        if name == family@ {
                            assert(after[p as int] == name);
                        }
                    }
                }
            }
        }
        proof {
            let after = family_names(fonts@);
            assert forall|name: Seq<char>| after.contains(name) <==> (exists|i: int|
                0 <= i < k + 1 && #[trigger] all[i] == name && is_offered(name)) by {
                if after.contains(name) {
                    if before.contains(name) {
                        let i = choose|i: int|
                            0 <= i < k && #[trigger] all[i] == name && is_offered(name);
                        assert(0 <= i < k + 1 && all[i] == name && is_offered(name));
                    } else {
                        assert(all[k] == name && is_offered(name));
                    }
                }
                if exists|i: int| 0 <= i < k + 1 && #[trigger] all[i] == name && is_offered(name) {
                    let i = choose|i: int|
                        0 <= i < k + 1 && #[trigger] all[i] == name && is_offered(name);
                    if i < k {
                        assert(before.contains(name));
                    }
                }
            }
        }
    }
    proof {
        let names = family_names(fonts@);
        assert forall|name: Seq<char>| names.contains(name) <==> offers(all, name) by {
            if names.contains(name) {
                let i = choose|i: int|
                    0 <= i < given.len() && #[trigger] all[i] == name && is_offered(name);
                assert(all.contains(name));
            }
            if offers(all, name) {
                let i = choose|i: int| 0 <= i < all.len() && all[i] == name;
                assert(0 <= i < given.len() && all[i] == name && is_offered(name));
            }
        }
    }
    if fonts.len() == 0 {
        proof {
            let names = family_names(fonts@);
            if offers_any(all) {
                let i = choose|i: int| 0 <= i < all.len() && is_offered(#[trigger] all[i]);
                assert(offers(all, all[i]));
                assert(names.contains(all[i]));
                let j = choose|j: int| 0 <= j < names.len() && names[j] == all[i];
            }
        }
        fallback()
    } else {
        proof {
            let names = family_names(fonts@);
            assert(names.contains(names[0]));
            assert(offers(all, names[0]));
            let i = choose|i: int| 0 <= i < all.len() && all[i] == names[0];
            assert(is_offered(all[i]));
        }
        fonts
    }
}

} // verus!
