//! Where the records that writing skills produces point once writing is done: every
//! number that a record was given while the tables grew is the number the final
//! tables give the same text.
use vstd::prelude::*;
use crate::string_table::{
    find_last, folded, general_intern_all, general_intern_index, general_key, general_lookup,
    lemma_find_last, skill_intern_all, skill_intern_index,
};
use crate::text::lowercase;
use crate::skill::{EnchantInfoView, EnchantLevelInfoView, SkillLevelInfoView};
use crate::skill_dat::{
    el_count, el_fold, enchant_count, enchant_fold, grp_fill_enchant,
    grp_fill_enchant_level, grp_fill_level, level_count, level_fold, name_fill_enchant,
    name_fill_enchant_level, name_fill_level, opt_texts, text_or, SerState, SkillGrpDatView,
    SkillNameDat,
};

verus! {

/// Whether the general table `b` extends `a`: every text that `a` finds, `b` finds
/// under the same number.
pub open spec fn gstable(a: Seq<Seq<char>>, b: Seq<Seq<char>>) -> bool {
    forall|t: Seq<char>| general_lookup(a, t) >= 0 ==> #[trigger] general_lookup(b, t) == general_lookup(a, t)
}

/// Whether the skill table `b` extends `a`: every text that `a` holds, `b` finds
/// under the same number.
pub open spec fn kstable(a: Seq<Seq<char>>, b: Seq<Seq<char>>) -> bool {
    forall|t: Seq<char>| find_last(a, t) >= 0 ==> #[trigger] find_last(b, t) == find_last(a, t)
}

/// Extending a general table twice extends it.
pub proof fn lemma_gstable_trans(a: Seq<Seq<char>>, b: Seq<Seq<char>>, c: Seq<Seq<char>>)
    requires
        gstable(a, b),
        gstable(b, c),
    ensures
        gstable(a, c),
{
    assert forall|t: Seq<char>| general_lookup(a, t) >= 0 implies #[trigger] general_lookup(c, t) == general_lookup(a, t) by {
        assert(general_lookup(b, t) == general_lookup(a, t));
    }
}

/// Extending a skill table twice extends it.
pub proof fn lemma_kstable_trans(a: Seq<Seq<char>>, b: Seq<Seq<char>>, c: Seq<Seq<char>>)
    requires
        kstable(a, b),
        kstable(b, c),
    ensures
        kstable(a, c),
{
    assert forall|t: Seq<char>| find_last(a, t) >= 0 implies #[trigger] find_last(c, t) == find_last(a, t) by {
        assert(find_last(b, t) == find_last(a, t));
    }
}

/// Interning texts into the general table: the table only extends, each text is then
/// found under the number it was given, and every entry is an old one or one of
/// the texts as the table stores it.
pub proof fn lemma_gintern(a: Seq<Seq<char>>, texts: Seq<Seq<char>>, pool: Seq<Seq<char>>)
    requires
        forall|j: int| 0 <= j < texts.len() ==> pool.contains(general_key(#[trigger] texts[j])),
    ensures
        gstable(a, general_intern_all(a, texts).0),
        general_intern_all(a, texts).1.len() == texts.len(),
        general_intern_all(a, texts).0.len() <= a.len() + texts.len(),
        forall|j: int|
            #![trigger texts[j]]
            #![trigger general_intern_all(a, texts).1[j]]
            0 <= j < texts.len() ==> 0 <= general_intern_all(a, texts).1[j] && general_lookup(
                general_intern_all(a, texts).0,
                texts[j],
            ) == general_intern_all(a, texts).1[j],
        forall|k: int|
            0 <= k < general_intern_all(a, texts).0.len() ==> a.contains(
                #[trigger] general_intern_all(a, texts).0[k],
            ) || pool.contains(general_intern_all(a, texts).0[k]),
    decreases texts.len(),
{
    let r = general_intern_all(a, texts);
    if texts.len() == 0 {
        assert forall|k: int| 0 <= k < a.len() implies a.contains(#[trigger] a[k]) by {}
    } else {
        let d = texts.drop_last();
        let t = texts.last();
        assert forall|j: int| 0 <= j < d.len() implies pool.contains(general_key(#[trigger] d[j])) by {
            assert(d[j] == texts[j]);
        }
        lemma_gintern(a, d, pool);
        let p = general_intern_all(a, d);
        let key = lowercase(general_key(t));
        lemma_find_last(folded(p.0), key);
        assert(t == texts[texts.len() - 1]);
        if general_lookup(p.0, t) >= 0 {
            assert(r.0 == p.0);
        } else {
            assert(r.0 == p.0.push(general_key(t)));
            assert(folded(r.0) =~= folded(p.0).push(key));
            assert(folded(r.0).last() == key);
            assert(folded(r.0).drop_last() =~= folded(p.0));
            assert(general_lookup(r.0, t) == p.0.len());
            assert forall|u: Seq<char>| general_lookup(p.0, u) >= 0 implies #[trigger] general_lookup(r.0, u)
                == general_lookup(p.0, u) by {
                let ku = lowercase(general_key(u));
                lemma_find_last(folded(p.0), ku);
                if key == ku {
                    assert(folded(p.0)[find_last(folded(p.0), ku)] == key);
                    assert(false);
                }
                assert(folded(r.0).last() != ku);
            }
            assert forall|k: int| 0 <= k < r.0.len() implies a.contains(#[trigger] r.0[k]) || pool.contains(r.0[k]) by {
                if k < p.0.len() {
                    assert(r.0[k] == p.0[k]);
                } else {
                    assert(r.0[k] == general_key(texts[texts.len() - 1]));
                }
            }
        }
        lemma_gstable_trans(a, p.0, r.0);
        assert forall|j: int|
            #![trigger texts[j]]
            #![trigger r.1[j]]
            0 <= j < texts.len() implies 0 <= r.1[j] && general_lookup(r.0, texts[j]) == r.1[j] by {
            if j < d.len() {
                assert(d[j] == texts[j]);
                assert(r.1[j] == p.1[j]);
                assert(general_lookup(p.0, d[j]) == p.1[j]);
            } else {
                assert(r.1[j] == general_intern_index(p.0, t));
            }
        }
    }
}

/// Interning texts into the skill table: the table only extends and each text is
/// then found under the number it was given.
pub proof fn lemma_kintern(a: Seq<Seq<char>>, texts: Seq<Seq<char>>)
    ensures
        kstable(a, skill_intern_all(a, texts).0),
        skill_intern_all(a, texts).1.len() == texts.len(),
        skill_intern_all(a, texts).0.len() <= a.len() + texts.len(),
        forall|j: int|
            #![trigger texts[j]]
            #![trigger skill_intern_all(a, texts).1[j]]
            0 <= j < texts.len() ==> 0 <= skill_intern_all(a, texts).1[j] && find_last(
                skill_intern_all(a, texts).0,
                texts[j],
            ) == skill_intern_all(a, texts).1[j],
    decreases texts.len(),
{
    let r = skill_intern_all(a, texts);
    if texts.len() > 0 {
        let d = texts.drop_last();
        let t = texts.last();
        lemma_kintern(a, d);
        let p = skill_intern_all(a, d);
        lemma_find_last(p.0, t);
        assert(t == texts[texts.len() - 1]);
        if find_last(p.0, t) < 0 {
            assert(r.0 == p.0.push(t));
            assert(r.0.drop_last() =~= p.0);
            assert forall|u: Seq<char>| find_last(p.0, u) >= 0 implies #[trigger] find_last(r.0, u) == find_last(p.0, u) by {
                lemma_find_last(p.0, u);
                if u == t {
                    assert(p.0[find_last(p.0, u)] == t);
                    assert(false);
                }
            }
        }
        lemma_kstable_trans(a, p.0, r.0);
        assert forall|j: int|
            #![trigger texts[j]]
            #![trigger r.1[j]]
            0 <= j < texts.len() implies 0 <= r.1[j] && find_last(r.0, texts[j]) == r.1[j] by {
            if j < d.len() {
                assert(d[j] == texts[j]);
                assert(r.1[j] == p.1[j]);
                assert(find_last(p.0, d[j]) == p.1[j]);
            } else {
                assert(r.1[j] == skill_intern_index(p.0, t));
                if find_last(p.0, t) < 0 {
                    assert(r.0.last() == t);
                }
            }
        }
    }
}

/// Interning texts that a later table `e` finds gives the numbers that interning
/// them into `e` itself gives, and leaves `e` as it is.
pub proof fn lemma_gintern_final(a: Seq<Seq<char>>, texts: Seq<Seq<char>>, e: Seq<Seq<char>>)
    requires
        gstable(general_intern_all(a, texts).0, e),
    ensures
        general_intern_all(e, texts) == (e, general_intern_all(a, texts).1),
    decreases texts.len(),
{
    let pool = texts.map_values(|t: Seq<char>| general_key(t));
    assert forall|j: int| 0 <= j < texts.len() implies pool.contains(general_key(#[trigger] texts[j])) by {
        assert(pool[j] == general_key(texts[j]));
    }
    lemma_gintern(a, texts, pool);
    if texts.len() > 0 {
        let d = texts.drop_last();
        let t = texts.last();
        let p = general_intern_all(a, d);
        let pd = d.map_values(|t: Seq<char>| general_key(t));
        assert forall|j: int| 0 <= j < d.len() implies pd.contains(general_key(#[trigger] d[j])) by {
            assert(pd[j] == general_key(d[j]));
        }
        lemma_gintern(a, d, pd);
        let r = general_intern_all(a, texts);
        assert(gstable(p.0, r.0)) by {
            let key = lowercase(general_key(t));
            lemma_find_last(folded(p.0), key);
            if general_lookup(p.0, t) < 0 {
                assert(folded(r.0) =~= folded(p.0).push(key));
                assert(folded(r.0).drop_last() =~= folded(p.0));
                assert forall|u: Seq<char>| general_lookup(p.0, u) >= 0 implies #[trigger] general_lookup(r.0, u)
                    == general_lookup(p.0, u) by {
                    let ku = lowercase(general_key(u));
                    lemma_find_last(folded(p.0), ku);
                    if key == ku {
                        assert(folded(p.0)[find_last(folded(p.0), ku)] == key);
                        assert(false);
                    }
                    assert(folded(r.0).last() != ku);
                }
            }
        }
        lemma_gstable_trans(p.0, r.0, e);
        lemma_gintern_final(a, d, e);
        assert(t == texts[texts.len() - 1]);
        assert(general_lookup(r.0, t) >= 0);
        assert(general_lookup(e, t) == general_lookup(r.0, t));
    }
}

/// The skill-table counterpart of `lemma_gintern_final`.
pub proof fn lemma_kintern_final(a: Seq<Seq<char>>, texts: Seq<Seq<char>>, e: Seq<Seq<char>>)
    requires
        kstable(skill_intern_all(a, texts).0, e),
    ensures
        skill_intern_all(e, texts) == (e, skill_intern_all(a, texts).1),
    decreases texts.len(),
{
    lemma_kintern(a, texts);
    if texts.len() > 0 {
        let d = texts.drop_last();
        let t = texts.last();
        let p = skill_intern_all(a, d);
        lemma_kintern(a, d);
        let r = skill_intern_all(a, texts);
        assert(kstable(p.0, r.0)) by {
            lemma_find_last(p.0, t);
            if find_last(p.0, t) < 0 {
                assert(r.0.drop_last() =~= p.0);
                assert forall|u: Seq<char>| find_last(p.0, u) >= 0 implies #[trigger] find_last(r.0, u) == find_last(p.0, u) by {
                    lemma_find_last(p.0, u);
                    if u == t {
                        assert(p.0[find_last(p.0, u)] == t);
                        assert(false);
                    }
                }
            }
        }
        lemma_kstable_trans(p.0, r.0, e);
        lemma_kintern_final(a, d, e);
        assert(t == texts[texts.len() - 1]);
        assert(find_last(r.0, t) >= 0);
        assert(find_last(e, t) == find_last(r.0, t));
    }
}

// ------------------------------------------------------------------------------------------
// The records as the final tables number them
// ------------------------------------------------------------------------------------------

/// The records written for a route's enchant levels, numbered by the final tables
/// `e` and `k`, and the records the last one left behind.
pub open spec fn lay_els(
    g: SkillGrpDatView,
    n: SkillNameDat,
    els: Seq<EnchantLevelInfoView>,
    etype: u32,
    e: Seq<Seq<char>>,
    k: Seq<Seq<char>>,
) -> (Seq<SkillGrpDatView>, Seq<SkillNameDat>, SkillGrpDatView, SkillNameDat)
    decreases els.len(),
{
    if els.len() == 0 {
        (seq![], seq![], g, n)
    } else {
        let p = lay_els(g, n, els.drop_last(), etype, e, k);
        let g1 = grp_fill_enchant_level(p.2, els.last(), e, etype).0;
        let n1 = name_fill_enchant_level(p.3, els.last(), k, etype).0;
        (p.0.push(g1), p.1.push(n1), g1, n1)
    }
}

/// The records written for a level's enchant routes, numbered by the final tables.
pub open spec fn lay_routes(
    g: SkillGrpDatView,
    n: SkillNameDat,
    es: Seq<EnchantInfoView>,
    level: u32,
    e: Seq<Seq<char>>,
    k: Seq<Seq<char>>,
) -> (Seq<SkillGrpDatView>, Seq<SkillNameDat>)
    decreases es.len(),
{
    if es.len() == 0 {
        (seq![], seq![])
    } else {
        let p = lay_routes(g, n, es.drop_last(), level, e, k);
        let r = es.last();
        let x = lay_els(
            grp_fill_enchant(g, r, e, level).0,
            name_fill_enchant(n, r, k, level).0,
            r.enchant_levels,
            r.enchant_type,
            e,
            k,
        );
        (p.0 + x.0, p.1 + x.1)
    }
}

/// The records written for a skill's levels and their routes, numbered by the
/// final tables.
pub open spec fn lay_levels(
    g: SkillGrpDatView,
    n: SkillNameDat,
    ls: Seq<SkillLevelInfoView>,
    e: Seq<Seq<char>>,
    k: Seq<Seq<char>>,
) -> (Seq<SkillGrpDatView>, Seq<SkillNameDat>)
    decreases ls.len(),
{
    if ls.len() == 0 {
        (seq![], seq![])
    } else {
        let p = lay_levels(g, n, ls.drop_last(), e, k);
        let l = ls.last();
        let g1 = grp_fill_level(g, l, e, ls.len() == 1).0;
        let n1 = name_fill_level(n, l, k, ls.len() == 1).0;
        let x = lay_routes(g1, n1, l.available_enchants, l.level, e, k);
        (p.0.push(g1) + x.0, p.1.push(n1) + x.1)
    }
}

// ------------------------------------------------------------------------------------------
// The texts numbered through the general table
// ------------------------------------------------------------------------------------------

/// The icons of a route's enchant levels, in the order writing numbers them.
pub open spec fn el_gtexts(els: Seq<EnchantLevelInfoView>) -> Seq<Seq<char>>
    decreases els.len(),
{
    if els.len() == 0 {
        seq![]
    } else {
        el_gtexts(els.drop_last()) + opt_texts(els.last().icon, els.last().icon_panel)
    }
}

/// The route icons and enchant-level icons of a level's routes, in order.
pub open spec fn route_gtexts(es: Seq<EnchantInfoView>) -> Seq<Seq<char>>
    decreases es.len(),
{
    if es.len() == 0 {
        seq![]
    } else {
        route_gtexts(es.drop_last()) + seq![es.last().enchant_icon] + el_gtexts(es.last().enchant_levels)
    }
}

/// The icons of the levels after the first and of all routes, in order.
pub open spec fn level_gtexts(ls: Seq<SkillLevelInfoView>) -> Seq<Seq<char>>
    decreases ls.len(),
{
    if ls.len() == 0 {
        seq![]
    } else {
        let l = ls.last();
        level_gtexts(ls.drop_last()) + (if ls.len() == 1 {
            Seq::<Seq<char>>::empty()
        } else {
            opt_texts(l.icon, l.icon_panel)
        }) + route_gtexts(l.available_enchants)
    }
}

/// Whether every text is non-empty and in the pool.
pub open spec fn within(texts: Seq<Seq<char>>, pool: Seq<Seq<char>>) -> bool {
    forall|j: int| 0 <= j < texts.len() ==> pool.contains(#[trigger] texts[j]) && texts[j].len() > 0
}

/// Texts that are all in the pool, split in two, are so in both parts.
pub proof fn lemma_within_concat(a: Seq<Seq<char>>, b: Seq<Seq<char>>, pool: Seq<Seq<char>>)
    requires
        within(a + b, pool),
    ensures
        within(a, pool),
        within(b, pool),
{
    assert forall|j: int| 0 <= j < a.len() implies pool.contains(#[trigger] a[j]) && a[j].len() > 0 by {
        assert((a + b)[j] == a[j]);
    }
    assert forall|j: int| 0 <= j < b.len() implies pool.contains(#[trigger] b[j]) && b[j].len() > 0 by {
        assert((a + b)[a.len() + j] == b[j]);
    }
}

/// Whether an optional icon, where present, is found in the general table and is
/// in the pool.
pub open spec fn opt_found(e: Seq<Seq<char>>, o: Option<Seq<char>>, pool: Seq<Seq<char>>) -> bool {
    o matches Some(t) ==> general_lookup(e, t) >= 0 && pool.contains(t)
}

/// Whether the tables find every text that writing an enchant level numbers.
pub open spec fn el_fits(el: EnchantLevelInfoView, e: Seq<Seq<char>>, k: Seq<Seq<char>>, pool: Seq<Seq<char>>) -> bool {
    &&& opt_found(e, el.icon, pool)
    &&& opt_found(e, el.icon_panel, pool)
    &&& find_last(k, el.enchant_name_params) >= 0
    &&& find_last(k, el.enchant_description_params) >= 0
    &&& find_last(k, el.skill_description_params) >= 0
}

/// Whether the tables find every text that writing a route numbers.
pub open spec fn route_fits(r: EnchantInfoView, e: Seq<Seq<char>>, k: Seq<Seq<char>>, pool: Seq<Seq<char>>) -> bool {
    &&& general_lookup(e, r.enchant_icon) >= 0
    &&& pool.contains(r.enchant_icon)
    &&& find_last(k, r.enchant_description) >= 0
    &&& find_last(k, r.enchant_name) >= 0
    &&& find_last(k, text_or(r.skill_description, ""@)) >= 0
    &&& forall|j: int| 0 <= j < r.enchant_levels.len() ==> el_fits(#[trigger] r.enchant_levels[j], e, k, pool)
}

/// Whether the tables find every text that writing a level numbers; the first
/// level's icons are not written.
pub open spec fn level_fits(l: SkillLevelInfoView, first: bool, e: Seq<Seq<char>>, k: Seq<Seq<char>>, pool: Seq<Seq<char>>) -> bool {
    &&& !first ==> opt_found(e, l.icon, pool) && opt_found(e, l.icon_panel, pool)
    &&& find_last(k, l.description_params) >= 0
    &&& !first ==> find_last(k, text_or(l.description, "\0"@)) >= 0
    &&& forall|r: int| 0 <= r < l.available_enchants.len() ==> route_fits(#[trigger] l.available_enchants[r], e, k, pool)
}

/// Whether the tables find every text that writing the levels numbers.
pub open spec fn levels_fit(ls: Seq<SkillLevelInfoView>, e: Seq<Seq<char>>, k: Seq<Seq<char>>, pool: Seq<Seq<char>>) -> bool {
    forall|p: int| 0 <= p < ls.len() ==> level_fits(#[trigger] ls[p], p == 0, e, k, pool)
}

// ------------------------------------------------------------------------------------------
// Writing, seen from the final tables
// ------------------------------------------------------------------------------------------

/// Whether every entry of `b` is an entry of `a` or in the pool.
pub open spec fn drawn_from(b: Seq<Seq<char>>, a: Seq<Seq<char>>, pool: Seq<Seq<char>>) -> bool {
    forall|i: int| 0 <= i < b.len() ==> a.contains(#[trigger] b[i]) || pool.contains(b[i])
}

/// Entries drawn from a table whose entries are drawn from another are drawn from that one.
pub proof fn lemma_drawn_trans(c: Seq<Seq<char>>, b: Seq<Seq<char>>, a: Seq<Seq<char>>, pool: Seq<Seq<char>>)
    requires
        drawn_from(c, b, pool),
        drawn_from(b, a, pool),
    ensures
        drawn_from(c, a, pool),
{
    assert forall|i: int| 0 <= i < c.len() implies a.contains(#[trigger] c[i]) || pool.contains(c[i]) by {
        if b.contains(c[i]) {
            let w = choose|w: int| 0 <= w < b.len() && b[w] == c[i];
            assert(a.contains(b[w]) || pool.contains(b[w]));
        }
    }
}

/// Writing a route's enchant levels gives the records that the final tables number
/// the same way; the tables only extend, within the counted growth, by texts of the
/// pool, and end up finding every text written.
#[verifier::spinoff_prover]
pub proof fn lemma_els_written(
    es0: (SerState, SkillGrpDatView, SkillNameDat),
    els: Seq<EnchantLevelInfoView>,
    etype: u32,
    e: Seq<Seq<char>>,
    k: Seq<Seq<char>>,
    pool: Seq<Seq<char>>,
)
    requires
        gstable(el_fold(es0, els, etype).0.gdn, e),
        kstable(el_fold(es0, els, etype).0.sk, k),
        within(el_gtexts(els), pool),
    ensures
        ({
            let r = el_fold(es0, els, etype);
            let x = lay_els(es0.1, es0.2, els, etype, e, k);
            &&& r.0.grps == es0.0.grps + x.0
            &&& r.0.names == es0.0.names + x.1
            &&& r.1 == x.2
            &&& r.2 == x.3
            &&& r.0.sound_gdn == es0.0.sound_gdn
            &&& r.0.sound_skills == es0.0.sound_skills
            &&& gstable(es0.0.gdn, r.0.gdn)
            &&& kstable(es0.0.sk, r.0.sk)
            &&& r.0.gdn.len() <= es0.0.gdn.len() + el_count(els)
            &&& r.0.sk.len() <= es0.0.sk.len() + el_count(els)
            &&& drawn_from(r.0.gdn, es0.0.gdn, pool)
            &&& forall|j: int| 0 <= j < els.len() ==> el_fits(#[trigger] els[j], e, k, pool)
        }),
    decreases els.len(),
{
    let r = el_fold(es0, els, etype);
    if els.len() == 0 {
        assert(es0.0.grps + Seq::<SkillGrpDatView>::empty() =~= es0.0.grps);
        assert(es0.0.names + Seq::<SkillNameDat>::empty() =~= es0.0.names);
        assert forall|i: int| 0 <= i < es0.0.gdn.len() implies es0.0.gdn.contains(#[trigger] es0.0.gdn[i])
            || pool.contains(es0.0.gdn[i]) by {}
    } else {
        let d = els.drop_last();
        let el = els.last();
        let es = el_fold(es0, d, etype);
        let gt = opt_texts(el.icon, el.icon_panel);
        let kt = seq![el.enchant_name_params, el.enchant_description_params, el.skill_description_params];
        lemma_within_concat(el_gtexts(d), gt, pool);
        assert forall|j: int| 0 <= j < gt.len() implies pool.contains(general_key(#[trigger] gt[j])) by {}
        lemma_gintern(es.0.gdn, gt, pool);
        lemma_kintern(es.0.sk, kt);
        let gdn1 = general_intern_all(es.0.gdn, gt).0;
        let sk1 = skill_intern_all(es.0.sk, kt).0;
        assert(r.0.gdn == gdn1);
        assert(r.0.sk == sk1);
        lemma_gstable_trans(es.0.gdn, gdn1, e);
        lemma_kstable_trans(es.0.sk, sk1, k);
        lemma_els_written(es0, d, etype, e, k, pool);
        lemma_gintern_final(es.0.gdn, gt, e);
        lemma_kintern_final(es.0.sk, kt, k);
        let x = lay_els(es0.1, es0.2, els, etype, e, k);
        let xd = lay_els(es0.1, es0.2, d, etype, e, k);
        assert(r.1 == x.2);
        assert(r.2 == x.3);
        assert(r.0.grps =~= es0.0.grps + x.0);
        assert(r.0.names =~= es0.0.names + x.1);
        lemma_gstable_trans(es0.0.gdn, es.0.gdn, gdn1);
        lemma_kstable_trans(es0.0.sk, es.0.sk, sk1);
        lemma_drawn_trans(gdn1, es.0.gdn, es0.0.gdn, pool);
        assert(el_fits(el, e, k, pool)) by {
            match el.icon {
                Some(t) => {
                    assert(gt[0] == t);
                },
                None => {},
            }
            match el.icon_panel {
                Some(t) => {
                    assert(gt[gt.len() - 1] == t);
                },
                None => {},
            }
            assert(kt[0] == el.enchant_name_params);
            assert(kt[1] == el.enchant_description_params);
            assert(kt[2] == el.skill_description_params);
        }
        assert forall|j: int| 0 <= j < els.len() implies el_fits(#[trigger] els[j], e, k, pool) by {
            if j < d.len() {
                assert(d[j] == els[j]);
            }
        }
    }
}

/// Writing a level's enchant routes gives the records that the final tables number
/// the same way, as `lemma_els_written` says of one route.
#[verifier::spinoff_prover]
pub proof fn lemma_routes_written(
    st: SerState,
    g: SkillGrpDatView,
    n: SkillNameDat,
    es: Seq<EnchantInfoView>,
    level: u32,
    e: Seq<Seq<char>>,
    k: Seq<Seq<char>>,
    pool: Seq<Seq<char>>,
)
    requires
        gstable(enchant_fold(st, g, n, es, level).gdn, e),
        kstable(enchant_fold(st, g, n, es, level).sk, k),
        within(route_gtexts(es), pool),
    ensures
        ({
            let r = enchant_fold(st, g, n, es, level);
            let x = lay_routes(g, n, es, level, e, k);
            &&& r.grps == st.grps + x.0
            &&& r.names == st.names + x.1
            &&& r.sound_gdn == st.sound_gdn
            &&& r.sound_skills == st.sound_skills
            &&& gstable(st.gdn, r.gdn)
            &&& kstable(st.sk, r.sk)
            &&& r.gdn.len() <= st.gdn.len() + enchant_count(es)
            &&& r.sk.len() <= st.sk.len() + enchant_count(es)
            &&& drawn_from(r.gdn, st.gdn, pool)
            &&& forall|j: int| 0 <= j < es.len() ==> route_fits(#[trigger] es[j], e, k, pool)
        }),
    decreases es.len(),
{
    let r = enchant_fold(st, g, n, es, level);
    if es.len() == 0 {
        assert(st.grps + Seq::<SkillGrpDatView>::empty() =~= st.grps);
        assert(st.names + Seq::<SkillNameDat>::empty() =~= st.names);
        assert forall|i: int| 0 <= i < st.gdn.len() implies st.gdn.contains(#[trigger] st.gdn[i])
            || pool.contains(st.gdn[i]) by {}
    } else {
        let d = es.drop_last();
        let rt = es.last();
        let sp = enchant_fold(st, g, n, d, level);
        let gt = seq![rt.enchant_icon];
        let kt = seq![rt.enchant_description, rt.enchant_name, text_or(rt.skill_description, ""@)];
        assert(route_gtexts(es) == route_gtexts(d) + gt + el_gtexts(rt.enchant_levels));
        lemma_within_concat(route_gtexts(d) + gt, el_gtexts(rt.enchant_levels), pool);
        lemma_within_concat(route_gtexts(d), gt, pool);
        assert forall|j: int| 0 <= j < gt.len() implies pool.contains(general_key(#[trigger] gt[j])) by {}
        lemma_gintern(sp.gdn, gt, pool);
        lemma_kintern(sp.sk, kt);
        let (g1, gdn1) = grp_fill_enchant(g, rt, sp.gdn, level);
        let (n1, sk1) = name_fill_enchant(n, rt, sp.sk, level);
        assert(gdn1 == general_intern_all(sp.gdn, gt).0);
        assert(sk1 == skill_intern_all(sp.sk, kt).0);
        let st1 = SerState { gdn: gdn1, sk: sk1, ..sp };
        assert(r == el_fold((st1, g1, n1), rt.enchant_levels, rt.enchant_type).0);
        lemma_els_written((st1, g1, n1), rt.enchant_levels, rt.enchant_type, e, k, pool);
        lemma_gstable_trans(gdn1, r.gdn, e);
        lemma_kstable_trans(sk1, r.sk, k);
        lemma_gstable_trans(sp.gdn, gdn1, e);
        lemma_kstable_trans(sp.sk, sk1, k);
        lemma_routes_written(st, g, n, d, level, e, k, pool);
        lemma_gintern_final(sp.gdn, gt, e);
        lemma_kintern_final(sp.sk, kt, k);
        assert(grp_fill_enchant(g, rt, e, level).0 == g1);
        assert(name_fill_enchant(n, rt, k, level).0 == n1);
        let x = lay_routes(g, n, es, level, e, k);
        let xd = lay_routes(g, n, d, level, e, k);
        let xe = lay_els(g1, n1, rt.enchant_levels, rt.enchant_type, e, k);
        assert(x == (xd.0 + xe.0, xd.1 + xe.1));
        assert(r.grps =~= st.grps + x.0);
        assert(r.names =~= st.names + x.1);
        lemma_gstable_trans(st.gdn, sp.gdn, gdn1);
        lemma_gstable_trans(st.gdn, gdn1, r.gdn);
        lemma_kstable_trans(st.sk, sp.sk, sk1);
        lemma_kstable_trans(st.sk, sk1, r.sk);
        lemma_drawn_trans(gdn1, sp.gdn, st.gdn, pool);
        lemma_drawn_trans(r.gdn, gdn1, st.gdn, pool);
        assert(route_fits(rt, e, k, pool)) by {
            assert(gt[0] == rt.enchant_icon);
            assert(kt[0] == rt.enchant_description);
            assert(kt[1] == rt.enchant_name);
            assert(kt[2] == text_or(rt.skill_description, ""@));
        }
        assert forall|j: int| 0 <= j < es.len() implies route_fits(#[trigger] es[j], e, k, pool) by {
            if j < d.len() {
                assert(d[j] == es[j]);
            }
        }
    }
}

/// Writing a skill's levels gives the records that the final tables number the
/// same way, as `lemma_els_written` says of one route.
#[verifier::spinoff_prover]
pub proof fn lemma_levels_written(
    st: SerState,
    g: SkillGrpDatView,
    n: SkillNameDat,
    ls: Seq<SkillLevelInfoView>,
    e: Seq<Seq<char>>,
    k: Seq<Seq<char>>,
    pool: Seq<Seq<char>>,
)
    requires
        gstable(level_fold(st, g, n, ls).gdn, e),
        kstable(level_fold(st, g, n, ls).sk, k),
        within(level_gtexts(ls), pool),
    ensures
        ({
            let r = level_fold(st, g, n, ls);
            let x = lay_levels(g, n, ls, e, k);
            &&& r.grps == st.grps + x.0
            &&& r.names == st.names + x.1
            &&& r.sound_gdn == st.sound_gdn
            &&& r.sound_skills == st.sound_skills
            &&& gstable(st.gdn, r.gdn)
            &&& kstable(st.sk, r.sk)
            &&& r.gdn.len() <= st.gdn.len() + level_count(ls)
            &&& r.sk.len() <= st.sk.len() + level_count(ls)
            &&& drawn_from(r.gdn, st.gdn, pool)
            &&& levels_fit(ls, e, k, pool)
        }),
    decreases ls.len(),
{
    let r = level_fold(st, g, n, ls);
    if ls.len() == 0 {
        assert(st.grps + Seq::<SkillGrpDatView>::empty() =~= st.grps);
        assert(st.names + Seq::<SkillNameDat>::empty() =~= st.names);
        assert forall|i: int| 0 <= i < st.gdn.len() implies st.gdn.contains(#[trigger] st.gdn[i])
            || pool.contains(st.gdn[i]) by {}
    } else {
        let d = ls.drop_last();
        let l = ls.last();
        let first = ls.len() == 1;
        let sp = level_fold(st, g, n, d);
        let gt = if first {
            Seq::<Seq<char>>::empty()
        } else {
            opt_texts(l.icon, l.icon_panel)
        };
        let kt = if first {
            seq![l.description_params]
        } else {
            seq![text_or(l.description, "\0"@), l.description_params]
        };
        assert(level_gtexts(ls) == level_gtexts(d) + gt + route_gtexts(l.available_enchants));
        lemma_within_concat(level_gtexts(d) + gt, route_gtexts(l.available_enchants), pool);
        lemma_within_concat(level_gtexts(d), gt, pool);
        assert forall|j: int| 0 <= j < gt.len() implies pool.contains(general_key(#[trigger] gt[j])) by {}
        lemma_gintern(sp.gdn, gt, pool);
        lemma_kintern(sp.sk, kt);
        let (g1, gdn1) = grp_fill_level(g, l, sp.gdn, first);
        let (n1, sk1) = name_fill_level(n, l, sp.sk, first);
        assert(gdn1 == general_intern_all(sp.gdn, gt).0);
        assert(sk1 == skill_intern_all(sp.sk, kt).0);
        let st1 = SerState { gdn: gdn1, sk: sk1, grps: sp.grps.push(g1), names: sp.names.push(n1), ..sp };
        assert(r == enchant_fold(st1, g1, n1, l.available_enchants, l.level));
        lemma_routes_written(st1, g1, n1, l.available_enchants, l.level, e, k, pool);
        lemma_gstable_trans(gdn1, r.gdn, e);
        lemma_kstable_trans(sk1, r.sk, k);
        lemma_gstable_trans(sp.gdn, gdn1, e);
        lemma_kstable_trans(sp.sk, sk1, k);
        lemma_levels_written(st, g, n, d, e, k, pool);
        lemma_gintern_final(sp.gdn, gt, e);
        lemma_kintern_final(sp.sk, kt, k);
        assert(grp_fill_level(g, l, e, first).0 == g1);
        assert(name_fill_level(n, l, k, first).0 == n1);
        let x = lay_levels(g, n, ls, e, k);
        let xd = lay_levels(g, n, d, e, k);
        let xr = lay_routes(g1, n1, l.available_enchants, l.level, e, k);
        assert(x == (xd.0.push(g1) + xr.0, xd.1.push(n1) + xr.1));
        assert(r.grps =~= st.grps + x.0);
        assert(r.names =~= st.names + x.1);
        lemma_gstable_trans(st.gdn, sp.gdn, gdn1);
        lemma_gstable_trans(st.gdn, gdn1, r.gdn);
        lemma_kstable_trans(st.sk, sp.sk, sk1);
        lemma_kstable_trans(st.sk, sk1, r.sk);
        lemma_drawn_trans(gdn1, sp.gdn, st.gdn, pool);
        lemma_drawn_trans(r.gdn, gdn1, st.gdn, pool);
        assert(level_fits(l, first, e, k, pool)) by {
            if !first {
                match l.icon {
                    Some(t) => {
                        assert(gt[0] == t);
                    },
                    None => {},
                }
                match l.icon_panel {
                    Some(t) => {
                        assert(gt[gt.len() - 1] == t);
                    },
                    None => {},
                }
                assert(kt[0] == text_or(l.description, "\0"@));
                assert(kt[1] == l.description_params);
            } else {
                assert(kt[0] == l.description_params);
            }
        }
        assert forall|p: int| 0 <= p < ls.len() implies level_fits(#[trigger] ls[p], p == 0, e, k, pool) by {
            if p < d.len() {
                assert(d[p] == ls[p]);
            }
        }
    }
}

} // verus!
