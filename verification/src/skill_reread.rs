//! What reading gives back of the records that writing a skill lays out.
use vstd::prelude::*;
use crate::string_table::{
    find_last, folded, general_intern_all, general_key, general_lookup, lemma_find_last, skill_intern_all,
};
use crate::text::lowercase;
use crate::skill::{EnchantInfoView, EnchantLevelInfoView, SkillLevelInfoView};
use crate::skill_dat::{
    grp_fill_enchant, grp_fill_enchant_level, grp_fill_level, name_fill_enchant, name_fill_enchant_level,
    name_fill_level, opt_texts, sub_level_of, text_or, SkillGrpDatView, SkillNameDat,
};
use crate::skill_layout::{el_fits, lay_els, lay_levels, lay_routes, level_fits, levels_fit, route_fits};
use crate::skill_load::{
    enchant_from_group, enchant_level_from_record, enchant_levels_from, enchants_for_key, enchants_upto,
    group_records, in_group, lemma_group_empty, level_from_record, levels_from, name_key, name_of,
    names_by_key, variant_of,
};

verus! {

/// Interning texts that a table already finds changes nothing and gives the numbers
/// it finds them under.
pub proof fn lemma_gintern_found(e: Seq<Seq<char>>, texts: Seq<Seq<char>>)
    requires
        forall|j: int| 0 <= j < texts.len() ==> general_lookup(e, #[trigger] texts[j]) >= 0,
    ensures
        general_intern_all(e, texts).0 == e,
        general_intern_all(e, texts).1.len() == texts.len(),
        forall|j: int|
            #![trigger texts[j]]
            #![trigger general_intern_all(e, texts).1[j]]
            0 <= j < texts.len() ==> general_intern_all(e, texts).1[j] == general_lookup(e, texts[j]),
    decreases texts.len(),
{
    if texts.len() > 0 {
        let d = texts.drop_last();
        assert forall|j: int| 0 <= j < d.len() implies general_lookup(e, #[trigger] d[j]) >= 0 by {
            assert(d[j] == texts[j]);
        }
        lemma_gintern_found(e, d);
        assert(texts.last() == texts[texts.len() - 1]);
        assert forall|j: int|
            #![trigger texts[j]]
            0 <= j < texts.len() implies general_intern_all(e, texts).1[j] == general_lookup(e, texts[j]) by {
            if j < d.len() {
                assert(d[j] == texts[j]);
            }
        }
    }
}

/// The skill-table counterpart of `lemma_gintern_found`.
pub proof fn lemma_kintern_found(k: Seq<Seq<char>>, texts: Seq<Seq<char>>)
    requires
        forall|j: int| 0 <= j < texts.len() ==> find_last(k, #[trigger] texts[j]) >= 0,
    ensures
        skill_intern_all(k, texts).0 == k,
        skill_intern_all(k, texts).1.len() == texts.len(),
        forall|j: int|
            #![trigger texts[j]]
            #![trigger skill_intern_all(k, texts).1[j]]
            0 <= j < texts.len() ==> skill_intern_all(k, texts).1[j] == find_last(k, texts[j]),
    decreases texts.len(),
{
    if texts.len() > 0 {
        let d = texts.drop_last();
        assert forall|j: int| 0 <= j < d.len() implies find_last(k, #[trigger] d[j]) >= 0 by {
            assert(d[j] == texts[j]);
        }
        lemma_kintern_found(k, d);
        assert(texts.last() == texts[texts.len() - 1]);
        assert forall|j: int|
            #![trigger texts[j]]
            0 <= j < texts.len() implies skill_intern_all(k, texts).1[j] == find_last(k, texts[j]) by {
            if j < d.len() {
                assert(d[j] == texts[j]);
            }
        }
    }
}

/// The enchant records of a route that come from two runs of records, in order.
pub proof fn lemma_group_concat(a: Seq<SkillGrpDatView>, b: Seq<SkillGrpDatView>, level: u8, variant: int)
    ensures
        group_records(a + b, level, variant) == group_records(a, level, variant) + group_records(b, level, variant),
    decreases b.len(),
{
    if b.len() == 0 {
        assert(a + b =~= a);
        assert(group_records(a, level, variant) + group_records(b, level, variant) =~= group_records(a, level, variant));
    } else {
        lemma_group_concat(a, b.drop_last(), level, variant);
        assert((a + b).drop_last() =~= a + b.drop_last());
        assert((a + b).last() == b.last());
        let ga = group_records(a, level, variant);
        let gb = group_records(b.drop_last(), level, variant);
        assert((ga + gb).push(b.last()) =~= ga + gb.push(b.last()));
    }
}

/// Records that are all enchant records add no level.
pub proof fn lemma_levels_skip(
    a: Seq<SkillGrpDatView>,
    b: Seq<SkillGrpDatView>,
    all: Seq<SkillGrpDatView>,
    first: SkillGrpDatView,
    fname: SkillNameDat,
    names: Map<u64, SkillNameDat>,
    d: Map<u32, Seq<char>>,
    gdn: Seq<Seq<char>>,
)
    requires
        forall|i: int| 0 <= i < b.len() ==> (#[trigger] b[i]).sub_level != 0,
    ensures
        levels_from(a + b, all, first, fname, names, d, gdn) == levels_from(a, all, first, fname, names, d, gdn),
    decreases b.len(),
{
    if b.len() == 0 {
        assert(a + b =~= a);
    } else {
        let bd = b.drop_last();
        assert forall|i: int| 0 <= i < bd.len() implies (#[trigger] bd[i]).sub_level != 0 by {
            assert(bd[i] == b[i]);
        }
        lemma_levels_skip(a, bd, all, first, fname, names, d, gdn);
        assert((a + b).drop_last() =~= a + bd);
        assert((a + b).last() == b[b.len() - 1]);
    }
}

/// Whether every record finds, by its key, the name record at its position.
pub open spec fn named(recs: Seq<SkillGrpDatView>, ns: Seq<SkillNameDat>, nm: Map<u64, SkillNameDat>) -> bool {
    &&& recs.len() == ns.len()
    &&& forall|i: int| 0 <= i < recs.len() ==> name_of(nm, #[trigger] recs[i]) == ns[i]
}

/// Records that find their name records, split in two, do so in both parts.
pub proof fn lemma_named_split(
    a: Seq<SkillGrpDatView>,
    b: Seq<SkillGrpDatView>,
    an: Seq<SkillNameDat>,
    bn: Seq<SkillNameDat>,
    nm: Map<u64, SkillNameDat>,
)
    requires
        named(a + b, an + bn, nm),
        a.len() == an.len(),
    ensures
        named(a, an, nm),
        named(b, bn, nm),
{
    assert forall|i: int| 0 <= i < a.len() implies name_of(nm, #[trigger] a[i]) == an[i] by {
        assert((a + b)[i] == a[i]);
        assert((an + bn)[i] == an[i]);
    }
    assert forall|i: int| 0 <= i < b.len() implies name_of(nm, #[trigger] b[i]) == bn[i] by {
        assert((a + b)[a.len() + i] == b[i]);
        assert((an + bn)[an.len() + i] == bn[i]);
    }
}

/// Whether the general table gives back exactly every text of the pool it finds,
/// under a 32-bit number.
pub open spec fn gexact(e: Seq<Seq<char>>, pool: Seq<Seq<char>>) -> bool {
    &&& e.len() < u32::MAX
    &&& forall|t: Seq<char>| pool.contains(t) && general_lookup(e, t) >= 0 ==> e[#[trigger] general_lookup(e, t)] == t
}

/// A number the general table finds a text under is one of its positions.
pub proof fn lemma_lookup_bounds(e: Seq<Seq<char>>, t: Seq<char>)
    ensures
        general_lookup(e, t) < e.len(),
        general_lookup(e, t) >= -1,
{
    lemma_find_last(folded(e), lowercase(general_key(t)));
}

/// Whether the dictionary holds the skill table's texts under their numbers, which
/// fit 32 bits.
pub open spec fn dict_of(d: Map<u32, Seq<char>>, k: Seq<Seq<char>>) -> bool {
    &&& k.len() < u32::MAX
    &&& forall|i: u32| (i as int) < k.len() ==> #[trigger] d.contains_key(i) && d[i] == k[i as int]
}

/// The dictionary's text under the number the skill table gives a text it holds is
/// that text.
pub proof fn lemma_dict_text(d: Map<u32, Seq<char>>, k: Seq<Seq<char>>, t: Seq<char>)
    requires
        dict_of(d, k),
        find_last(k, t) >= 0,
    ensures
        d.contains_key(find_last(k, t) as u32),
        d[find_last(k, t) as u32] == t,
        (find_last(k, t) as u32) as int == find_last(k, t),
{
    lemma_find_last(k, t);
    let i = find_last(k, t) as u32;
    assert(d.contains_key(i) && d[i] == k[i as int]);
}

/// Distinct texts that the skill table holds have distinct numbers.
pub proof fn lemma_dict_distinct(k: Seq<Seq<char>>, t: Seq<char>, u: Seq<char>)
    requires
        k.len() < u32::MAX,
        find_last(k, t) >= 0,
        find_last(k, u) >= 0,
        t != u,
    ensures
        find_last(k, t) as u32 != find_last(k, u) as u32,
{
    lemma_find_last(k, t);
    lemma_find_last(k, u);
}

/// Whether an enchant sub-level can be read back: the level within the route is at
/// most 999, and the sub-level is not 0 (the sub-level of a level record) and fits
/// 16 bits.
pub open spec fn sub_readable(etype: u32, level: u32) -> bool {
    level <= 999 && 1 <= etype * 1000 + level <= 32767
}

/// A sub-level that reads back is the route type in the thousands and the level in
/// the units, above 0, and reading splits it back into both.
pub proof fn lemma_sub_level(etype: u32, level: u32)
    requires
        sub_readable(etype, level),
    ensures
        sub_level_of(etype, level) == etype * 1000 + level,
        sub_level_of(etype, level) > 0,
        variant_of(sub_level_of(etype, level)) == etype,
        ((sub_level_of(etype, level) as u32) as int - variant_of(sub_level_of(etype, level)) * 1000) as u32 == level,
{
    let s: int = etype * 1000 + level;
    assert(s / 1000 == etype) by (nonlinear_arith)
        requires
            s == etype * 1000 + level,
            0 <= level <= 999,
    ;
}

/// Whether an optional icon reads back: present, it is not the skill's; absent, the
/// record carries the skill's (`inherited` tells whether it does).
pub open spec fn icon_reads(o: Option<Seq<char>>, inherited: bool, e: Seq<Seq<char>>, skill_icon: u32) -> bool {
    &&& o matches Some(t) ==> general_lookup(e, t) as u32 != skill_icon
    &&& o is None ==> inherited
}

/// Whether enchant level `j` of a route reads back: its sub-level fits, and each icon
/// is its own or, absent, the record before left the skill's.
pub open spec fn el_readable(
    els: Seq<EnchantLevelInfoView>,
    j: int,
    etype: u32,
    g: SkillGrpDatView,
    first: SkillGrpDatView,
    e: Seq<Seq<char>>,
) -> bool {
    &&& sub_readable(etype, els[j].level)
    &&& icon_reads(
        els[j].icon,
        if j == 0 {
            g.icon == first.icon
        } else {
            els[j - 1].icon is None
        },
        e,
        first.icon,
    )
    &&& icon_reads(
        els[j].icon_panel,
        if j == 0 {
            g.icon_panel == first.icon_panel
        } else {
            els[j - 1].icon_panel is None
        },
        e,
        first.icon_panel,
    )
}

/// Whether the enchant levels of a route read back.
pub open spec fn els_readable(
    els: Seq<EnchantLevelInfoView>,
    etype: u32,
    g: SkillGrpDatView,
    first: SkillGrpDatView,
    e: Seq<Seq<char>>,
) -> bool {
    forall|j: int| 0 <= j < els.len() ==> #[trigger] el_readable(els, j, etype, g, first, e)
}

/// The enchant records of a route keep the route's fields and carry their
/// sub-levels; the name records likewise.
pub proof fn lemma_els_shape(
    g: SkillGrpDatView,
    n: SkillNameDat,
    els: Seq<EnchantLevelInfoView>,
    etype: u32,
    e: Seq<Seq<char>>,
    k: Seq<Seq<char>>,
)
    ensures
        ({
            let x = lay_els(g, n, els, etype, e, k);
            &&& x.0.len() == els.len()
            &&& x.1.len() == els.len()
            &&& forall|j: int|
                0 <= j < els.len() ==> {
                    &&& (#[trigger] x.0[j]).id == g.id
                    &&& x.0[j].level == g.level
                    &&& x.0[j].sub_level == sub_level_of(etype, els[j].level)
                    &&& x.0[j].enchant_icon == g.enchant_icon
                    &&& x.0[j].debuff == g.debuff
                }
            &&& forall|j: int|
                0 <= j < els.len() ==> {
                    &&& (#[trigger] x.1[j]).id == n.id
                    &&& x.1[j].level == n.level
                    &&& x.1[j].sub_level == sub_level_of(etype, els[j].level)
                    &&& x.1[j].enchant_name == n.enchant_name
                    &&& x.1[j].enchant_desc == n.enchant_desc
                    &&& x.1[j].desc == n.desc
                }
            &&& x.2.id == g.id && x.2.level == g.level && x.2.enchant_icon == g.enchant_icon && x.2.debuff == g.debuff
            &&& x.3.id == n.id && x.3.level == n.level && x.3.enchant_name == n.enchant_name
                && x.3.enchant_desc == n.enchant_desc && x.3.desc == n.desc
        }),
    decreases els.len(),
{
    if els.len() > 0 {
        let dl = els.drop_last();
        lemma_els_shape(g, n, dl, etype, e, k);
        let x = lay_els(g, n, els, etype, e, k);
        let xd = lay_els(g, n, dl, etype, e, k);
        assert forall|j: int| 0 <= j < els.len() implies (#[trigger] x.0[j]).id == g.id && x.0[j].level == g.level
            && x.0[j].sub_level == sub_level_of(etype, els[j].level) && x.0[j].enchant_icon == g.enchant_icon
            && x.0[j].debuff == g.debuff by {
            if j < dl.len() {
                assert(x.0[j] == xd.0[j]);
                assert(dl[j] == els[j]);
            }
        }
        assert forall|j: int| 0 <= j < els.len() implies (#[trigger] x.1[j]).id == n.id && x.1[j].level == n.level
            && x.1[j].sub_level == sub_level_of(etype, els[j].level) && x.1[j].enchant_name == n.enchant_name
            && x.1[j].enchant_desc == n.enchant_desc && x.1[j].desc == n.desc by {
            if j < dl.len() {
                assert(x.1[j] == xd.1[j]);
                assert(dl[j] == els[j]);
            }
        }
    }
}

/// Reading one enchant record, with its name record, gives back the enchant level it
/// was written from.
pub proof fn lemma_el_read(
    pg: SkillGrpDatView,
    pn: SkillNameDat,
    el: EnchantLevelInfoView,
    etype: u32,
    e: Seq<Seq<char>>,
    k: Seq<Seq<char>>,
    pool: Seq<Seq<char>>,
    first: SkillGrpDatView,
    d: Map<u32, Seq<char>>,
)
    requires
        el_fits(el, e, k, pool),
        sub_readable(etype, el.level),
        icon_reads(el.icon, pg.icon == first.icon, e, first.icon),
        icon_reads(el.icon_panel, pg.icon_panel == first.icon_panel, e, first.icon_panel),
        gexact(e, pool),
        dict_of(d, k),
    ensures
        enchant_level_from_record(
            grp_fill_enchant_level(pg, el, e, etype).0,
            first,
            name_fill_enchant_level(pn, el, k, etype).0,
            d,
            e,
        ) == el,
        el.icon is None ==> grp_fill_enchant_level(pg, el, e, etype).0.icon == first.icon,
        el.icon_panel is None ==> grp_fill_enchant_level(pg, el, e, etype).0.icon_panel == first.icon_panel,
{
    let gt = opt_texts(el.icon, el.icon_panel);
    let kt = seq![el.enchant_name_params, el.enchant_description_params, el.skill_description_params];
    assert forall|i: int| 0 <= i < gt.len() implies general_lookup(e, #[trigger] gt[i]) >= 0 by {
        match el.icon {
            Some(t) => {
                if i == 0 {
                    assert(gt[i] == t);
                } else {
                    assert(gt[i] == el.icon_panel->0);
                }
            },
            None => {
                assert(gt[i] == el.icon_panel->0);
            },
        }
    }
    lemma_gintern_found(e, gt);
    assert forall|i: int| 0 <= i < kt.len() implies find_last(k, #[trigger] kt[i]) >= 0 by {}
    lemma_kintern_found(k, kt);
    let g1 = grp_fill_enchant_level(pg, el, e, etype).0;
    let n1 = name_fill_enchant_level(pn, el, k, etype).0;
    lemma_sub_level(etype, el.level);
    assert(kt[0] == el.enchant_name_params);
    assert(kt[1] == el.enchant_description_params);
    assert(kt[2] == el.skill_description_params);
    lemma_dict_text(d, k, el.enchant_name_params);
    lemma_dict_text(d, k, el.enchant_description_params);
    lemma_dict_text(d, k, el.skill_description_params);
    let back = enchant_level_from_record(g1, first, n1, d, e);
    match el.icon {
        Some(t) => {
            assert(gt[0] == t);
            lemma_lookup_bounds(e, t);
            assert(g1.icon == general_lookup(e, t) as u32);
            assert(e[general_lookup(e, t)] == t);
        },
        None => {},
    }
    match el.icon_panel {
        Some(t) => {
            assert(gt[gt.len() - 1] == t);
            lemma_lookup_bounds(e, t);
            assert(g1.icon_panel == general_lookup(e, t) as u32);
            assert(e[general_lookup(e, t)] == t);
        },
        None => {},
    }
    assert(back.level == el.level);
    assert(back.skill_description_params == el.skill_description_params);
    assert(back.enchant_name_params == el.enchant_name_params);
    assert(back.enchant_description_params == el.enchant_description_params);
    assert(back.mp_cost == el.mp_cost);
    assert(back.icon == el.icon);
    assert(back.icon_panel == el.icon_panel);
    assert(back == el);
}

/// Reading the enchant records of a route gives back its enchant levels.
#[verifier::spinoff_prover]
pub proof fn lemma_els_read(
    g: SkillGrpDatView,
    n: SkillNameDat,
    els: Seq<EnchantLevelInfoView>,
    etype: u32,
    e: Seq<Seq<char>>,
    k: Seq<Seq<char>>,
    pool: Seq<Seq<char>>,
    first: SkillGrpDatView,
    nm: Map<u64, SkillNameDat>,
    d: Map<u32, Seq<char>>,
)
    requires
        forall|j: int| 0 <= j < els.len() ==> el_fits(#[trigger] els[j], e, k, pool),
        els_readable(els, etype, g, first, e),
        gexact(e, pool),
        dict_of(d, k),
        named(lay_els(g, n, els, etype, e, k).0, lay_els(g, n, els, etype, e, k).1, nm),
    ensures
        enchant_levels_from(lay_els(g, n, els, etype, e, k).0, first, nm, d, e) == els,
        els.len() > 0 && els.last().icon is None ==> lay_els(g, n, els, etype, e, k).2.icon == first.icon,
        els.len() > 0 && els.last().icon_panel is None ==> lay_els(g, n, els, etype, e, k).2.icon_panel
            == first.icon_panel,
        els.len() == 0 ==> lay_els(g, n, els, etype, e, k).2 == g,
    decreases els.len(),
{
    if els.len() > 0 {
        let dl = els.drop_last();
        let el = els.last();
        let j = dl.len() as int;
        assert(el == els[j]);
        let x = lay_els(g, n, els, etype, e, k);
        let xd = lay_els(g, n, dl, etype, e, k);
        lemma_els_shape(g, n, els, etype, e, k);
        lemma_els_shape(g, n, dl, etype, e, k);
        assert forall|i: int| 0 <= i < dl.len() implies el_fits(#[trigger] dl[i], e, k, pool) by {
            assert(dl[i] == els[i]);
        }
        assert(els_readable(dl, etype, g, first, e)) by {
            assert forall|i: int| 0 <= i < dl.len() implies #[trigger] el_readable(dl, i, etype, g, first, e) by {
                assert(el_readable(els, i, etype, g, first, e));
                assert(dl[i] == els[i]);
                if i > 0 {
                    assert(dl[i - 1] == els[i - 1]);
                }
            }
        }
        assert(named(xd.0, xd.1, nm)) by {
            assert forall|i: int| 0 <= i < xd.0.len() implies name_of(nm, #[trigger] xd.0[i]) == xd.1[i] by {
                assert(x.0[i] == xd.0[i]);
                assert(x.1[i] == xd.1[i]);
            }
        }
        lemma_els_read(g, n, dl, etype, e, k, pool, first, nm, d);
        assert(el_readable(els, j, etype, g, first, e));
        if j > 0 {
            assert(dl.last() == els[j - 1]);
        }
        lemma_el_read(xd.2, xd.3, el, etype, e, k, pool, first, d);
        assert(x.0.drop_last() =~= xd.0);
        assert(name_of(nm, x.0[j]) == x.1[j]);
    }
}

// ------------------------------------------------------------------------------------------
// Routes
// ------------------------------------------------------------------------------------------

/// Whether the sub-levels of a route's enchant levels fit and are distinct.
pub open spec fn route_subs_ok(rt: EnchantInfoView) -> bool {
    &&& forall|j1: int, j2: int|
        0 <= j1 < j2 < rt.enchant_levels.len() ==> (#[trigger] rt.enchant_levels[j1]).level
            != (#[trigger] rt.enchant_levels[j2]).level
    &&& forall|j: int|
        0 <= j < rt.enchant_levels.len() ==> sub_readable(rt.enchant_type, (#[trigger] rt.enchant_levels[j]).level)
}

/// Whether the routes' types ascend strictly and their sub-levels fit and are
/// distinct.
pub open spec fn routes_subs_ok(es: Seq<EnchantInfoView>) -> bool {
    &&& forall|r1: int, r2: int|
        0 <= r1 < r2 < es.len() ==> (#[trigger] es[r1]).enchant_type < (#[trigger] es[r2]).enchant_type
    &&& forall|r: int| 0 <= r < es.len() ==> route_subs_ok(#[trigger] es[r])
}

/// Whether a route reads back: it has enchant levels, with distinct levels, that
/// read back, and its own description, where it has one, is neither empty nor the
/// skill's (`sdesc`).
pub open spec fn route_readable(
    rt: EnchantInfoView,
    gl: SkillGrpDatView,
    first: SkillGrpDatView,
    e: Seq<Seq<char>>,
    sdesc: Seq<char>,
) -> bool {
    &&& rt.enchant_levels.len() > 0
    &&& route_subs_ok(rt)
    &&& els_readable(rt.enchant_levels, rt.enchant_type, gl, first, e)
    &&& rt.skill_description matches Some(t) ==> t.len() > 0 && t != sdesc
}

/// Whether a level's routes read back: their types ascend strictly and each reads
/// back.
pub open spec fn routes_readable(
    es: Seq<EnchantInfoView>,
    gl: SkillGrpDatView,
    first: SkillGrpDatView,
    e: Seq<Seq<char>>,
    sdesc: Seq<char>,
) -> bool {
    &&& forall|r1: int, r2: int|
        0 <= r1 < r2 < es.len() ==> (#[trigger] es[r1]).enchant_type < (#[trigger] es[r2]).enchant_type
    &&& forall|r: int| 0 <= r < es.len() ==> route_readable(#[trigger] es[r], gl, first, e, sdesc)
}

/// The records written for route `r` of a level.
pub open spec fn route_recs(
    gl: SkillGrpDatView,
    nl: SkillNameDat,
    es: Seq<EnchantInfoView>,
    level: u32,
    e: Seq<Seq<char>>,
    k: Seq<Seq<char>>,
    r: int,
) -> (Seq<SkillGrpDatView>, Seq<SkillNameDat>, SkillGrpDatView, SkillNameDat) {
    lay_els(
        grp_fill_enchant(gl, es[r], e, level).0,
        name_fill_enchant(nl, es[r], k, level).0,
        es[r].enchant_levels,
        es[r].enchant_type,
        e,
        k,
    )
}

/// A route's records that all belong to route `variant` of level `level` are its
/// enchant records.
pub proof fn lemma_group_all(s: Seq<SkillGrpDatView>, level: u8, variant: int)
    requires
        forall|i: int| 0 <= i < s.len() ==> in_group(#[trigger] s[i], level, variant),
    ensures
        group_records(s, level, variant) == s,
    decreases s.len(),
{
    if s.len() > 0 {
        let d = s.drop_last();
        assert forall|i: int| 0 <= i < d.len() implies in_group(#[trigger] d[i], level, variant) by {
            assert(d[i] == s[i]);
        }
        lemma_group_all(d, level, variant);
        assert(s.last() == s[s.len() - 1]);
        assert(d.push(s.last()) =~= s);
    }
}

/// Reading the records of a route gives back the route.
#[verifier::spinoff_prover]
pub proof fn lemma_route_read(
    gl: SkillGrpDatView,
    nl: SkillNameDat,
    rt: EnchantInfoView,
    level: u32,
    e: Seq<Seq<char>>,
    k: Seq<Seq<char>>,
    pool: Seq<Seq<char>>,
    first: SkillGrpDatView,
    fname: SkillNameDat,
    sdesc: Seq<char>,
    nm: Map<u64, SkillNameDat>,
    d: Map<u32, Seq<char>>,
)
    requires
        route_fits(rt, e, k, pool),
        route_readable(rt, gl, first, e, sdesc),
        gexact(e, pool),
        dict_of(d, k),
        find_last(k, sdesc) >= 0,
        fname.desc == find_last(k, sdesc) as u32,
        ({
            let x = lay_els(
                grp_fill_enchant(gl, rt, e, level).0,
                name_fill_enchant(nl, rt, k, level).0,
                rt.enchant_levels,
                rt.enchant_type,
                e,
                k,
            );
            named(x.0, x.1, nm)
        }),
    ensures
        enchant_from_group(
            lay_els(
                grp_fill_enchant(gl, rt, e, level).0,
                name_fill_enchant(nl, rt, k, level).0,
                rt.enchant_levels,
                rt.enchant_type,
                e,
                k,
            ).0,
            first,
            fname,
            nm,
            d,
            e,
        ) == rt,
{
    let els = rt.enchant_levels;
    let gr = grp_fill_enchant(gl, rt, e, level).0;
    let nr = name_fill_enchant(nl, rt, k, level).0;
    let x = lay_els(gr, nr, els, rt.enchant_type, e, k);
    let gt = seq![rt.enchant_icon];
    let kt = seq![rt.enchant_description, rt.enchant_name, text_or(rt.skill_description, ""@)];
    assert forall|i: int| 0 <= i < gt.len() implies general_lookup(e, #[trigger] gt[i]) >= 0 by {}
    lemma_gintern_found(e, gt);
    assert forall|i: int| 0 <= i < kt.len() implies find_last(k, #[trigger] kt[i]) >= 0 by {}
    lemma_kintern_found(k, kt);
    assert(gt[0] == rt.enchant_icon);
    assert(kt[0] == rt.enchant_description);
    assert(kt[1] == rt.enchant_name);
    assert(kt[2] == text_or(rt.skill_description, ""@));
    lemma_els_shape(gr, nr, els, rt.enchant_type, e, k);
    assert(els_readable(els, rt.enchant_type, gr, first, e)) by {
        assert forall|j: int| 0 <= j < els.len() implies #[trigger] el_readable(els, j, rt.enchant_type, gr, first, e) by {
            assert(el_readable(els, j, rt.enchant_type, gl, first, e));
        }
    }
    assert forall|j: int| 0 <= j < els.len() implies el_fits(#[trigger] els[j], e, k, pool) by {}
    lemma_els_read(gr, nr, els, rt.enchant_type, e, k, pool, first, nm, d);
    let h = x.0[0];
    let hn = name_of(nm, h);
    assert(hn == x.1[0]);
    assert(el_readable(els, 0, rt.enchant_type, gl, first, e));
    lemma_sub_level(rt.enchant_type, els[0].level);
    lemma_dict_text(d, k, rt.enchant_name);
    lemma_dict_text(d, k, rt.enchant_description);
    lemma_dict_text(d, k, text_or(rt.skill_description, ""@));
    lemma_lookup_bounds(e, rt.enchant_icon);
    let back = enchant_from_group(x.0, first, fname, nm, d, e);
    assert(back.enchant_type == rt.enchant_type);
    assert(back.enchant_name == rt.enchant_name);
    assert(back.enchant_description == rt.enchant_description);
    assert(back.enchant_icon == rt.enchant_icon);
    assert(back.is_debuff == rt.is_debuff);
    match rt.skill_description {
        Some(t) => {
            lemma_dict_distinct(k, t, sdesc);
            assert(back.skill_description == rt.skill_description);
        },
        None => {
            reveal_strlit("");
            assert(d[hn.desc].len() == 0);
            assert(back.skill_description == rt.skill_description);
        },
    }
    assert(back == rt);
}

/// The records of a level's routes keep the level's fields, are enchant records of
/// the routes' types, and have distinct sub-levels; the name records likewise.
#[verifier::spinoff_prover]
pub proof fn lemma_routes_shape(
    gl: SkillGrpDatView,
    nl: SkillNameDat,
    es: Seq<EnchantInfoView>,
    level: u32,
    e: Seq<Seq<char>>,
    k: Seq<Seq<char>>,
)
    requires
        routes_subs_ok(es),
    ensures
        ({
            let x = lay_routes(gl, nl, es, level, e, k);
            &&& x.0.len() == x.1.len()
            &&& forall|i: int|
                0 <= i < x.0.len() ==> {
                    &&& (#[trigger] x.0[i]).id == gl.id
                    &&& x.0[i].level == gl.level
                    &&& x.0[i].sub_level > 0
                    &&& x.0[i].sub_level == x.1[i].sub_level
                    &&& x.1[i].id == nl.id
                    &&& x.1[i].level == nl.level
                    &&& 0 <= variant_of(x.0[i].sub_level) <= es.last().enchant_type
                }
            &&& forall|i: int, j: int|
                0 <= i < j < x.1.len() ==> (#[trigger] x.1[i]).sub_level != (#[trigger] x.1[j]).sub_level
        }),
    decreases es.len(),
{
    if es.len() > 0 {
        let dl = es.drop_last();
        let rt = es.last();
        let last = es.len() - 1;
        assert(rt == es[last]);
        assert(routes_subs_ok(dl)) by {
            assert forall|r: int| 0 <= r < dl.len() implies #[trigger] dl[r] == es[r] by {}
        }
        lemma_routes_shape(gl, nl, dl, level, e, k);
        let gr = grp_fill_enchant(gl, rt, e, level).0;
        let nr = name_fill_enchant(nl, rt, k, level).0;
        lemma_els_shape(gr, nr, rt.enchant_levels, rt.enchant_type, e, k);
        let x = lay_routes(gl, nl, es, level, e, k);
        let xd = lay_routes(gl, nl, dl, level, e, k);
        let xe = lay_els(gr, nr, rt.enchant_levels, rt.enchant_type, e, k);
        assert(x.0 == xd.0 + xe.0);
        assert(x.1 == xd.1 + xe.1);
        assert(route_subs_ok(rt));
        let els = rt.enchant_levels;
        assert forall|j: int| 0 <= j < els.len() implies #[trigger] variant_of(xe.0[j].sub_level) == rt.enchant_type
            && xe.0[j].sub_level > 0 by {
            assert(sub_readable(rt.enchant_type, els[j].level));
            lemma_sub_level(rt.enchant_type, els[j].level);
        }
        if dl.len() > 0 {
            assert(dl.last() == es[last - 1]);
            assert(es[last - 1].enchant_type < es[last].enchant_type);
        }
        assert forall|i: int| 0 <= i < x.0.len() implies {
            &&& (#[trigger] x.0[i]).id == gl.id
            &&& x.0[i].level == gl.level
            &&& x.0[i].sub_level > 0
            &&& x.0[i].sub_level == x.1[i].sub_level
            &&& x.1[i].id == nl.id
            &&& x.1[i].level == nl.level
            &&& 0 <= variant_of(x.0[i].sub_level) <= es.last().enchant_type
        } by {
            if i < xd.0.len() {
                assert(x.0[i] == xd.0[i]);
                assert(x.1[i] == xd.1[i]);
            } else {
                let j = i - xd.0.len();
                assert(x.0[i] == xe.0[j]);
                assert(x.1[i] == xe.1[j]);
                assert(variant_of(xe.0[j].sub_level) == rt.enchant_type);
            }
        }
        assert forall|i: int, j: int| 0 <= i < j < x.1.len() implies (#[trigger] x.1[i]).sub_level
            != (#[trigger] x.1[j]).sub_level by {
            if j < xd.1.len() {
                assert(x.1[i] == xd.1[i]);
                assert(x.1[j] == xd.1[j]);
            } else if i < xd.1.len() {
                let jj = j - xd.1.len();
                assert(x.1[i] == xd.1[i]);
                assert(x.1[j] == xe.1[jj]);
                assert(xd.0[i].sub_level == xd.1[i].sub_level);
                assert(variant_of(xd.0[i].sub_level) <= dl.last().enchant_type);
                assert(variant_of(xe.0[jj].sub_level) == rt.enchant_type);
            } else {
                let ii = i - xd.1.len();
                let jj = j - xd.1.len();
                assert(x.1[i] == xe.1[ii]);
                assert(x.1[j] == xe.1[jj]);
                assert(els[ii].level != els[jj].level);
                lemma_sub_level(rt.enchant_type, els[ii].level);
                lemma_sub_level(rt.enchant_type, els[jj].level);
            }
        }
    }
}

/// The enchant records of route type `v` of the level, among the records of its
/// routes, are those of the route with that type, or none where no route has it.
#[verifier::spinoff_prover]
pub proof fn lemma_routes_groups(
    gl: SkillGrpDatView,
    nl: SkillNameDat,
    es: Seq<EnchantInfoView>,
    level: u32,
    e: Seq<Seq<char>>,
    k: Seq<Seq<char>>,
)
    requires
        routes_subs_ok(es),
    ensures
        forall|r: int|
            0 <= r < es.len() ==> group_records(lay_routes(gl, nl, es, level, e, k).0, gl.level, (#[trigger] es[r]).enchant_type as int)
                == route_recs(gl, nl, es, level, e, k, r).0,
        forall|v: int|
            (forall|r: int| 0 <= r < es.len() ==> (#[trigger] es[r]).enchant_type as int != v) ==> #[trigger] group_records(
                lay_routes(gl, nl, es, level, e, k).0,
                gl.level,
                v,
            ).len() == 0,
    decreases es.len(),
{
    if es.len() > 0 {
        let dl = es.drop_last();
        let rt = es.last();
        let last = es.len() - 1;
        assert(rt == es[last]);
        assert(routes_subs_ok(dl)) by {
            assert forall|r: int| 0 <= r < dl.len() implies #[trigger] dl[r] == es[r] by {}
        }
        lemma_routes_groups(gl, nl, dl, level, e, k);
        let gr = grp_fill_enchant(gl, rt, e, level).0;
        let nr = name_fill_enchant(nl, rt, k, level).0;
        lemma_els_shape(gr, nr, rt.enchant_levels, rt.enchant_type, e, k);
        let x = lay_routes(gl, nl, es, level, e, k);
        let xd = lay_routes(gl, nl, dl, level, e, k);
        let xe = lay_els(gr, nr, rt.enchant_levels, rt.enchant_type, e, k);
        assert(x.0 == xd.0 + xe.0);
        assert(route_subs_ok(rt));
        let els = rt.enchant_levels;
        let t = rt.enchant_type as int;
        assert forall|j: int| 0 <= j < xe.0.len() implies #[trigger] xe.0[j].sub_level != 0 && xe.0[j].level == gl.level
            && variant_of(xe.0[j].sub_level) == t by {
            assert(sub_readable(rt.enchant_type, els[j].level));
            lemma_sub_level(rt.enchant_type, els[j].level);
        }
        assert forall|r: int| 0 <= r < es.len() implies group_records(x.0, gl.level, (#[trigger] es[r]).enchant_type as int)
            == route_recs(gl, nl, es, level, e, k, r).0 by {
            let v = es[r].enchant_type as int;
            lemma_group_concat(xd.0, xe.0, gl.level, v);
            if r < last {
                assert(dl[r] == es[r]);
                assert(es[r].enchant_type < es[last].enchant_type);
                assert(route_recs(gl, nl, dl, level, e, k, r) == route_recs(gl, nl, es, level, e, k, r));
                assert forall|j: int| 0 <= j < xe.0.len() implies !in_group(#[trigger] xe.0[j], gl.level, v) by {
                    assert(variant_of(xe.0[j].sub_level) == t);
                }
                lemma_group_empty(xe.0, gl.level, v);
                assert(group_records(xd.0, gl.level, v) + group_records(xe.0, gl.level, v) =~= group_records(xd.0, gl.level, v));
            } else {
                assert forall|q: int| 0 <= q < dl.len() implies (#[trigger] dl[q]).enchant_type as int != v by {
                    assert(dl[q] == es[q]);
                    assert(es[q].enchant_type < es[last].enchant_type);
                }
                assert(group_records(xd.0, gl.level, v).len() == 0);
                assert forall|j: int| 0 <= j < xe.0.len() implies in_group(#[trigger] xe.0[j], gl.level, v) by {
                    assert(variant_of(xe.0[j].sub_level) == t);
                }
                lemma_group_all(xe.0, gl.level, v);
                assert(group_records(xd.0, gl.level, v) + group_records(xe.0, gl.level, v) =~= xe.0);
            }
        }
        assert forall|v: int| (forall|r: int| 0 <= r < es.len() ==> (#[trigger] es[r]).enchant_type as int != v)
            implies #[trigger] group_records(x.0, gl.level, v).len() == 0 by {
            lemma_group_concat(xd.0, xe.0, gl.level, v);
            assert forall|q: int| 0 <= q < dl.len() implies (#[trigger] dl[q]).enchant_type as int != v by {
                assert(dl[q] == es[q]);
            }
            assert(es[last].enchant_type as int != v);
            assert forall|j: int| 0 <= j < xe.0.len() implies !in_group(#[trigger] xe.0[j], gl.level, v) by {
                assert(variant_of(xe.0[j].sub_level) == t);
            }
            lemma_group_empty(xe.0, gl.level, v);
        }
    } else {
        assert forall|v: int| (forall|r: int| 0 <= r < es.len() ==> (#[trigger] es[r]).enchant_type as int != v)
            implies #[trigger] group_records(lay_routes(gl, nl, es, level, e, k).0, gl.level, v).len() == 0 by {
            assert(lay_routes(gl, nl, es, level, e, k).0 =~= Seq::<SkillGrpDatView>::empty());
        }
    }
}

/// How many routes have a type below `u`.
pub open spec fn below(es: Seq<EnchantInfoView>, u: int) -> int
    decreases es.len(),
{
    if es.len() == 0 {
        0
    } else {
        below(es.drop_last(), u) + if (es.last().enchant_type as int) < u {
            1int
        } else {
            0int
        }
    }
}

/// Where types ascend, the routes with a type below `u` come first.
pub proof fn lemma_below(es: Seq<EnchantInfoView>, u: int)
    requires
        forall|r1: int, r2: int|
            0 <= r1 < r2 < es.len() ==> (#[trigger] es[r1]).enchant_type < (#[trigger] es[r2]).enchant_type,
    ensures
        0 <= below(es, u) <= es.len(),
        forall|i: int| 0 <= i < es.len() ==> (i < below(es, u) <==> (#[trigger] es[i]).enchant_type < u),
    decreases es.len(),
{
    if es.len() > 0 {
        let dl = es.drop_last();
        let last = es.len() - 1;
        assert forall|r1: int, r2: int| 0 <= r1 < r2 < dl.len() implies (#[trigger] dl[r1]).enchant_type
            < (#[trigger] dl[r2]).enchant_type by {
            assert(dl[r1] == es[r1] && dl[r2] == es[r2]);
        }
        lemma_below(dl, u);
        assert(es.last() == es[last]);
        assert forall|i: int| 0 <= i < es.len() implies (i < below(es, u) <==> (#[trigger] es[i]).enchant_type < u) by {
            if i < last {
                assert(dl[i] == es[i]);
                assert(es[i].enchant_type < es[last].enchant_type);
                if es[last].enchant_type < u {
                    assert(below(dl, u) == dl.len()) by {
                        if below(dl, u) < dl.len() {
                            let w = below(dl, u);
                            assert(dl[w] == es[w]);
                            assert(es[w].enchant_type < es[last].enchant_type);
                        }
                    }
                }
            } else {
                if es[last].enchant_type < u {
                } else {
                    assert(below(dl, u) <= dl.len());
                }
            }
        }
    }
}

/// Reading the routes of a level gives back its routes where the records of each
/// type are those written for the route of that type, read back, and no other type
/// has records.
#[verifier::spinoff_prover]
pub proof fn lemma_upto_read(
    all: Seq<SkillGrpDatView>,
    level: u8,
    es: Seq<EnchantInfoView>,
    u: int,
    first: SkillGrpDatView,
    fname: SkillNameDat,
    nm: Map<u64, SkillNameDat>,
    d: Map<u32, Seq<char>>,
    gdn: Seq<Seq<char>>,
)
    requires
        0 <= u,
        forall|r1: int, r2: int|
            0 <= r1 < r2 < es.len() ==> (#[trigger] es[r1]).enchant_type < (#[trigger] es[r2]).enchant_type,
        forall|r: int|
            0 <= r < es.len() ==> group_records(all, level, (#[trigger] es[r]).enchant_type as int).len() > 0
                && enchant_from_group(group_records(all, level, es[r].enchant_type as int), first, fname, nm, d, gdn)
                == es[r],
        forall|v: int|
            (forall|r: int| 0 <= r < es.len() ==> (#[trigger] es[r]).enchant_type as int != v) ==> #[trigger] group_records(
                all,
                level,
                v,
            ).len() == 0,
    ensures
        enchants_upto(all, level, u, first, fname, nm, d, gdn) == es.subrange(0, below(es, u)),
    decreases u,
{
    lemma_below(es, u);
    if u == 0 {
        assert(below(es, 0) == 0) by {
            if below(es, 0) > 0 {
                assert(es[0].enchant_type < 0);
            }
        }
        assert(es.subrange(0, 0) =~= Seq::<EnchantInfoView>::empty());
    } else {
        lemma_upto_read(all, level, es, u - 1, first, fname, nm, d, gdn);
        lemma_below(es, u - 1);
        let b = below(es, u - 1);
        let g = group_records(all, level, u - 1);
        if exists|r: int| 0 <= r < es.len() && (#[trigger] es[r]).enchant_type as int == u - 1 {
            let r = choose|r: int| 0 <= r < es.len() && (#[trigger] es[r]).enchant_type as int == u - 1;
            assert(r >= b);
            assert(r == b) by {
                if r > b {
                    assert(es[b].enchant_type < es[r].enchant_type);
                    assert(!(b < below(es, u - 1)));
                }
            }
            assert(below(es, u) == b + 1) by {
                if below(es, u) > b + 1 {
                    assert(es[b + 1].enchant_type < u);
                    assert(es[b].enchant_type < es[b + 1].enchant_type);
                }
                if below(es, u) < b + 1 {
                    assert(es[b].enchant_type < u);
                }
            }
            assert(g.len() > 0);
            assert(es.subrange(0, b).push(es[b]) =~= es.subrange(0, b + 1));
        } else {
            assert(g.len() == 0);
            assert(below(es, u) == b) by {
                if below(es, u) > b {
                    assert(es[b].enchant_type < u);
                    assert(!(es[b].enchant_type < u - 1));
                }
                if below(es, u) < b {
                    let w = below(es, u);
                    assert(es[w].enchant_type < u - 1);
                }
            }
        }
    }
}

// ------------------------------------------------------------------------------------------
// Levels
// ------------------------------------------------------------------------------------------

/// Whether level `p` of a skill reads back: it is numbered `p + 1`; the first level
/// has neither icons nor a description of its own; another level's icons are not
/// the skill's, and its description is neither empty nor "\0" nor the skill's
/// (`sdesc`).
pub open spec fn level_readable(
    l: SkillLevelInfoView,
    p: int,
    first: SkillGrpDatView,
    e: Seq<Seq<char>>,
    sdesc: Seq<char>,
) -> bool {
    &&& l.level == p + 1
    &&& p == 0 ==> l.icon is None && l.icon_panel is None && l.description is None
    &&& p > 0 ==> icon_reads(l.icon, true, e, first.icon) && icon_reads(l.icon_panel, true, e, first.icon_panel)
    &&& p > 0 ==> (l.description matches Some(t) ==> t.len() > 0 && t != seq!['\0'] && t != sdesc)
}

/// Reading a level record, with its name record, gives back the level, without its
/// routes.
pub proof fn lemma_level_read(
    g0: SkillGrpDatView,
    n0: SkillNameDat,
    l: SkillLevelInfoView,
    p: int,
    e: Seq<Seq<char>>,
    k: Seq<Seq<char>>,
    pool: Seq<Seq<char>>,
    first: SkillGrpDatView,
    fname: SkillNameDat,
    sdesc: Seq<char>,
    d: Map<u32, Seq<char>>,
)
    requires
        0 <= p < 255,
        level_fits(l, p == 0, e, k, pool),
        level_readable(l, p, first, e, sdesc),
        gexact(e, pool),
        dict_of(d, k),
        g0.icon == first.icon,
        g0.icon_panel == first.icon_panel,
        find_last(k, sdesc) >= 0,
        fname.desc == find_last(k, sdesc) as u32,
        p == 0 ==> n0.desc == fname.desc,
    ensures
        level_from_record(
            grp_fill_level(g0, l, e, p == 0).0,
            first,
            name_fill_level(n0, l, k, p == 0).0,
            fname,
            d,
            e,
        ) == (SkillLevelInfoView { available_enchants: seq![], ..l }),
{
    let first_level = p == 0;
    let gt = if first_level {
        Seq::<Seq<char>>::empty()
    } else {
        opt_texts(l.icon, l.icon_panel)
    };
    let kt = if first_level {
        seq![l.description_params]
    } else {
        seq![text_or(l.description, "\0"@), l.description_params]
    };
    assert forall|i: int| 0 <= i < gt.len() implies general_lookup(e, #[trigger] gt[i]) >= 0 by {
        match l.icon {
            Some(t) => {
                if i == 0 {
                    assert(gt[i] == t);
                } else {
                    assert(gt[i] == l.icon_panel->0);
                }
            },
            None => {
                assert(gt[i] == l.icon_panel->0);
            },
        }
    }
    lemma_gintern_found(e, gt);
    assert forall|i: int| 0 <= i < kt.len() implies find_last(k, #[trigger] kt[i]) >= 0 by {}
    lemma_kintern_found(k, kt);
    let g1 = grp_fill_level(g0, l, e, first_level).0;
    let n1 = name_fill_level(n0, l, k, first_level).0;
    let back = level_from_record(g1, first, n1, fname, d, e);
    lemma_dict_text(d, k, l.description_params);
    if first_level {
        assert(kt[0] == l.description_params);
        assert(back.icon == l.icon);
        assert(back.icon_panel == l.icon_panel);
        assert(back.description == l.description);
    } else {
        assert(kt[0] == text_or(l.description, "\0"@));
        assert(kt[1] == l.description_params);
        lemma_dict_text(d, k, text_or(l.description, "\0"@));
        match l.icon {
            Some(t) => {
                assert(gt[0] == t);
                lemma_lookup_bounds(e, t);
            },
            None => {},
        }
        match l.icon_panel {
            Some(t) => {
                assert(gt[gt.len() - 1] == t);
                lemma_lookup_bounds(e, t);
            },
            None => {},
        }
        assert(back.icon == l.icon);
        assert(back.icon_panel == l.icon_panel);
        match l.description {
            Some(t) => {
                lemma_dict_distinct(k, t, sdesc);
            },
            None => {
                assert("\0"@ =~= seq!['\0']) by {
                    reveal_strlit("\0");
                }
            },
        }
        assert(back.description == l.description);
    }
    assert(back.description_params == l.description_params);
    assert(back == (SkillLevelInfoView { available_enchants: seq![], ..l }));
}

/// The level record written for level `p`.
pub open spec fn level_grp(g0: SkillGrpDatView, ls: Seq<SkillLevelInfoView>, p: int, e: Seq<Seq<char>>) -> SkillGrpDatView {
    grp_fill_level(g0, ls[p], e, p == 0).0
}

/// The name record written for level `p`.
pub open spec fn level_name(n0: SkillNameDat, ls: Seq<SkillLevelInfoView>, p: int, k: Seq<Seq<char>>) -> SkillNameDat {
    name_fill_level(n0, ls[p], k, p == 0).0
}

/// The records written for the routes of level `p`.
pub open spec fn level_routes(
    g0: SkillGrpDatView,
    n0: SkillNameDat,
    ls: Seq<SkillLevelInfoView>,
    p: int,
    e: Seq<Seq<char>>,
    k: Seq<Seq<char>>,
) -> (Seq<SkillGrpDatView>, Seq<SkillNameDat>) {
    lay_routes(level_grp(g0, ls, p, e), level_name(n0, ls, p, k), ls[p].available_enchants, ls[p].level, e, k)
}

/// Whether levels are numbered from 1 in order, at most 255 of them, and their
/// routes' sub-levels fit and are distinct.
pub open spec fn levels_numbered(ls: Seq<SkillLevelInfoView>) -> bool {
    &&& ls.len() <= 255
    &&& forall|p: int| 0 <= p < ls.len() ==> (#[trigger] ls[p]).level == p + 1 && routes_subs_ok(ls[p].available_enchants)
}

/// Levels numbered from 1 stay so without the last, which is numbered by the count.
pub proof fn lemma_levels_numbered_prefix(ls: Seq<SkillLevelInfoView>)
    requires
        levels_numbered(ls),
        ls.len() > 0,
    ensures
        levels_numbered(ls.drop_last()),
        ls.last() == ls[ls.len() - 1],
        ls.last().level == ls.len(),
        routes_subs_ok(ls.last().available_enchants),
{
    let dl = ls.drop_last();
    assert forall|p: int| 0 <= p < dl.len() implies #[trigger] dl[p] == ls[p] by {}
    assert(ls.last() == ls[ls.len() - 1]);
}

/// The records of a skill's levels keep the skill's id; a level record and its name
/// record share level and sub-level; levels run from 1; no two name records share
/// both level and sub-level.
#[verifier::spinoff_prover]
pub proof fn lemma_levels_shape(
    g0: SkillGrpDatView,
    n0: SkillNameDat,
    ls: Seq<SkillLevelInfoView>,
    e: Seq<Seq<char>>,
    k: Seq<Seq<char>>,
)
    requires
        g0.sub_level == 0,
        n0.sub_level == 0,
        levels_numbered(ls),
    ensures
        ({
            let x = lay_levels(g0, n0, ls, e, k);
            &&& x.0.len() == x.1.len()
            &&& forall|i: int|
                0 <= i < x.0.len() ==> {
                    &&& (#[trigger] x.0[i]).id == g0.id
                    &&& x.1[i].id == n0.id
                    &&& x.0[i].level as int == x.1[i].level as int
                    &&& x.0[i].sub_level == x.1[i].sub_level
                    &&& 1 <= x.1[i].level <= ls.len()
                    &&& x.1[i].sub_level >= 0
                }
            &&& forall|i: int, j: int|
                0 <= i < j < x.1.len() ==> (#[trigger] x.1[i]).level != (#[trigger] x.1[j]).level
                    || x.1[i].sub_level != x.1[j].sub_level
        }),
    decreases ls.len(),
{
    if ls.len() > 0 {
        let dl = ls.drop_last();
        let l = ls.last();
        lemma_levels_numbered_prefix(ls);
        lemma_levels_shape(g0, n0, dl, e, k);
        let first = ls.len() == 1;
        let g1 = grp_fill_level(g0, l, e, first).0;
        let n1 = name_fill_level(n0, l, k, first).0;
        lemma_routes_shape(g1, n1, l.available_enchants, l.level, e, k);
        let x = lay_levels(g0, n0, ls, e, k);
        let xd = lay_levels(g0, n0, dl, e, k);
        let xr = lay_routes(g1, n1, l.available_enchants, l.level, e, k);
        let a = xd.0.push(g1);
        let an = xd.1.push(n1);
        assert(x.0 == a + xr.0);
        assert(x.1 == an + xr.1);
        let m = xd.0.len();
        assert(x.0.len() == x.1.len());
        assert(g1.level as int == l.level && n1.level as int == l.level);
        assert forall|i: int| 0 <= i < x.0.len() implies {
            &&& (#[trigger] x.0[i]).id == g0.id
            &&& x.1[i].id == n0.id
            &&& x.0[i].level as int == x.1[i].level as int
            &&& x.0[i].sub_level == x.1[i].sub_level
            &&& 1 <= x.1[i].level <= ls.len()
            &&& x.1[i].sub_level >= 0
        } by {
            if i < m {
                assert(x.0[i] == xd.0[i]);
                assert(x.1[i] == xd.1[i]);
            } else if i == m {
                assert(x.0[i] == g1);
                assert(x.1[i] == n1);
            } else {
                assert(x.0[i] == xr.0[i - m - 1]);
                assert(x.1[i] == xr.1[i - m - 1]);
            }
        }
        assert forall|i: int, j: int| 0 <= i < j < x.1.len() implies (#[trigger] x.1[i]).level
            != (#[trigger] x.1[j]).level || x.1[i].sub_level != x.1[j].sub_level by {
            if j < m {
                assert(x.1[i] == xd.1[i]);
                assert(x.1[j] == xd.1[j]);
            } else if i < m {
                assert(x.1[i] == xd.1[i]);
                assert(xd.0[i].id == g0.id);
                assert(xd.1[i].level <= dl.len());
                if j == m {
                    assert(x.1[j] == n1);
                } else {
                    assert(x.1[j] == xr.1[j - m - 1]);
                    assert(xr.0[j - m - 1].id == g1.id);
                    assert(xr.1[j - m - 1].level == n1.level);
                }
            } else if i == m {
                assert(x.1[i] == n1);
                assert(x.1[j] == xr.1[j - m - 1]);
                assert(xr.0[j - m - 1].sub_level > 0);
            } else {
                assert(x.1[i] == xr.1[i - m - 1]);
                assert(x.1[j] == xr.1[j - m - 1]);
            }
        }
    }
}

/// The enchant records of route type `v` of level `lv`, among all records of a
/// skill's levels, are those among the records of that level's routes.
#[verifier::spinoff_prover]
pub proof fn lemma_levels_groups(
    g0: SkillGrpDatView,
    n0: SkillNameDat,
    ls: Seq<SkillLevelInfoView>,
    e: Seq<Seq<char>>,
    k: Seq<Seq<char>>,
)
    requires
        g0.sub_level == 0,
        n0.sub_level == 0,
        levels_numbered(ls),
    ensures
        forall|lv: u8, v: int|
            1 <= lv <= ls.len() ==> #[trigger] group_records(lay_levels(g0, n0, ls, e, k).0, lv, v) == group_records(
                level_routes(g0, n0, ls, lv - 1, e, k).0,
                lv,
                v,
            ),
    decreases ls.len(),
{
    if ls.len() > 0 {
        let dl = ls.drop_last();
        let l = ls.last();
        let last = ls.len() - 1;
        lemma_levels_numbered_prefix(ls);
        lemma_levels_groups(g0, n0, dl, e, k);
        lemma_levels_shape(g0, n0, dl, e, k);
        let first = ls.len() == 1;
        let g1 = grp_fill_level(g0, l, e, first).0;
        let n1 = name_fill_level(n0, l, k, first).0;
        lemma_routes_shape(g1, n1, l.available_enchants, l.level, e, k);
        let x = lay_levels(g0, n0, ls, e, k);
        let xd = lay_levels(g0, n0, dl, e, k);
        let xr = lay_routes(g1, n1, l.available_enchants, l.level, e, k);
        assert(x.0 == xd.0 + seq![g1] + xr.0) by {
            assert(xd.0.push(g1) =~= xd.0 + seq![g1]);
        }
        assert(level_routes(g0, n0, ls, last, e, k) == xr);
        assert forall|lv: u8, v: int| 1 <= lv <= ls.len() implies #[trigger] group_records(x.0, lv, v) == group_records(
            level_routes(g0, n0, ls, lv - 1, e, k).0,
            lv,
            v,
        ) by {
            lemma_group_concat(xd.0 + seq![g1], xr.0, lv, v);
            lemma_group_concat(xd.0, seq![g1], lv, v);
            assert(group_records(seq![g1], lv, v).len() == 0) by {
                lemma_group_empty(seq![g1], lv, v);
                assert(seq![g1][0] == g1);
            }
            if (lv as int) < ls.len() {
                assert(dl[lv - 1] == ls[lv - 1]);
                assert(level_routes(g0, n0, dl, lv - 1, e, k) == level_routes(g0, n0, ls, lv - 1, e, k));
                assert forall|j: int| 0 <= j < xr.0.len() implies !in_group(#[trigger] xr.0[j], lv, v) by {
                    assert(xr.0[j].level == g1.level);
                }
                lemma_group_empty(xr.0, lv, v);
                assert(group_records(xd.0, lv, v) + group_records(seq![g1], lv, v) + group_records(xr.0, lv, v)
                    =~= group_records(xd.0, lv, v));
            } else {
                assert forall|j: int| 0 <= j < xd.0.len() implies !in_group(#[trigger] xd.0[j], lv, v) by {
                    assert(xd.0[j].level as int == xd.1[j].level as int);
                }
                lemma_group_empty(xd.0, lv, v);
                assert(group_records(xd.0, lv, v) + group_records(seq![g1], lv, v) + group_records(xr.0, lv, v)
                    =~= group_records(xr.0, lv, v));
            }
        }
    }
}

/// Reading the records of a skill's levels gives back its levels, where the routes
/// read for each level are its routes.
#[verifier::spinoff_prover]
pub proof fn lemma_levels_read(
    g0: SkillGrpDatView,
    n0: SkillNameDat,
    ls: Seq<SkillLevelInfoView>,
    e: Seq<Seq<char>>,
    k: Seq<Seq<char>>,
    pool: Seq<Seq<char>>,
    all: Seq<SkillGrpDatView>,
    first: SkillGrpDatView,
    fname: SkillNameDat,
    sdesc: Seq<char>,
    nm: Map<u64, SkillNameDat>,
    d: Map<u32, Seq<char>>,
)
    requires
        g0.sub_level == 0,
        n0.sub_level == 0,
        levels_numbered(ls),
        levels_fit(ls, e, k, pool),
        forall|p: int| 0 <= p < ls.len() ==> level_readable(#[trigger] ls[p], p, first, e, sdesc),
        forall|p: int|
            0 <= p < ls.len() ==> enchants_for_key(all, p + 1, first, fname, nm, d, e) == (#[trigger] ls[p]).available_enchants,
        gexact(e, pool),
        dict_of(d, k),
        g0.icon == first.icon,
        g0.icon_panel == first.icon_panel,
        find_last(k, sdesc) >= 0,
        fname.desc == find_last(k, sdesc) as u32,
        n0.desc == fname.desc,
        named(lay_levels(g0, n0, ls, e, k).0, lay_levels(g0, n0, ls, e, k).1, nm),
    ensures
        levels_from(lay_levels(g0, n0, ls, e, k).0, all, first, fname, nm, d, e) == ls,
    decreases ls.len(),
{
    if ls.len() > 0 {
        let dl = ls.drop_last();
        let l = ls.last();
        let p = dl.len() as int;
        lemma_levels_numbered_prefix(ls);
        lemma_levels_shape(g0, n0, dl, e, k);
        let first_level = ls.len() == 1;
        let g1 = grp_fill_level(g0, l, e, first_level).0;
        let n1 = name_fill_level(n0, l, k, first_level).0;
        lemma_routes_shape(g1, n1, l.available_enchants, l.level, e, k);
        let x = lay_levels(g0, n0, ls, e, k);
        let xd = lay_levels(g0, n0, dl, e, k);
        let xr = lay_routes(g1, n1, l.available_enchants, l.level, e, k);
        assert(x.0 == xd.0.push(g1) + xr.0);
        assert(x.1 == xd.1.push(n1) + xr.1);
        lemma_named_split(xd.0.push(g1), xr.0, xd.1.push(n1), xr.1, nm);
        assert(xd.0.push(g1) =~= xd.0 + seq![g1]);
        assert(xd.1.push(n1) =~= xd.1 + seq![n1]);
        lemma_named_split(xd.0, seq![g1], xd.1, seq![n1], nm);
        assert(levels_fit(dl, e, k, pool)) by {
            assert forall|q: int| 0 <= q < dl.len() implies level_fits(#[trigger] dl[q], q == 0, e, k, pool) by {
                assert(dl[q] == ls[q]);
            }
        }
        assert forall|q: int| 0 <= q < dl.len() implies level_readable(#[trigger] dl[q], q, first, e, sdesc) by {
            assert(dl[q] == ls[q]);
        }
        assert forall|q: int| 0 <= q < dl.len() implies enchants_for_key(all, q + 1, first, fname, nm, d, e)
            == (#[trigger] dl[q]).available_enchants by {
            assert(dl[q] == ls[q]);
        }
        lemma_levels_read(g0, n0, dl, e, k, pool, all, first, fname, sdesc, nm, d);
        assert forall|i: int| 0 <= i < xr.0.len() implies (#[trigger] xr.0[i]).sub_level != 0 by {}
        lemma_levels_skip(xd.0.push(g1), xr.0, all, first, fname, nm, d, e);
        assert(xd.0.push(g1).drop_last() =~= xd.0);
        assert(name_of(nm, seq![g1][0]) == seq![n1][0]);
        assert(l == ls[p]);
        assert(level_fits(ls[p], p == 0, e, k, pool));
        lemma_level_read(g0, n0, l, p, e, k, pool, first, fname, sdesc, d);
        assert(enchants_for_key(all, p + 1, first, fname, nm, d, e) == l.available_enchants);
        assert(levels_from(x.0, all, first, fname, nm, d, e) =~= ls);
    }
}

/// Where a level's route records find their name records, so do those of each route.
pub proof fn lemma_routes_named(
    gl: SkillGrpDatView,
    nl: SkillNameDat,
    es: Seq<EnchantInfoView>,
    level: u32,
    e: Seq<Seq<char>>,
    k: Seq<Seq<char>>,
    nm: Map<u64, SkillNameDat>,
)
    requires
        named(lay_routes(gl, nl, es, level, e, k).0, lay_routes(gl, nl, es, level, e, k).1, nm),
    ensures
        forall|r: int|
            0 <= r < es.len() ==> #[trigger] named(
                route_recs(gl, nl, es, level, e, k, r).0,
                route_recs(gl, nl, es, level, e, k, r).1,
                nm,
            ),
    decreases es.len(),
{
    if es.len() > 0 {
        let dl = es.drop_last();
        let rt = es.last();
        let last = es.len() - 1;
        let gr = grp_fill_enchant(gl, rt, e, level).0;
        let nr = name_fill_enchant(nl, rt, k, level).0;
        lemma_els_shape(gr, nr, rt.enchant_levels, rt.enchant_type, e, k);
        let x = lay_routes(gl, nl, es, level, e, k);
        let xd = lay_routes(gl, nl, dl, level, e, k);
        let xe = lay_els(gr, nr, rt.enchant_levels, rt.enchant_type, e, k);
        assert(x.0 == xd.0 + xe.0);
        assert(x.1 == xd.1 + xe.1);
        assert(xd.0.len() == xd.1.len()) by {
            assert(x.0.len() == x.1.len());
        }
        lemma_named_split(xd.0, xe.0, xd.1, xe.1, nm);
        lemma_routes_named(gl, nl, dl, level, e, k, nm);
        assert forall|r: int| 0 <= r < es.len() implies #[trigger] named(
            route_recs(gl, nl, es, level, e, k, r).0,
            route_recs(gl, nl, es, level, e, k, r).1,
            nm,
        ) by {
            if r < last {
                assert(dl[r] == es[r]);
                assert(route_recs(gl, nl, dl, level, e, k, r) == route_recs(gl, nl, es, level, e, k, r));
            } else {
                assert(rt == es[r]);
            }
        }
    }
}

/// Where a skill's level records find their name records, so do the records of
/// each level's routes.
pub proof fn lemma_levels_named(
    g0: SkillGrpDatView,
    n0: SkillNameDat,
    ls: Seq<SkillLevelInfoView>,
    e: Seq<Seq<char>>,
    k: Seq<Seq<char>>,
    nm: Map<u64, SkillNameDat>,
)
    requires
        g0.sub_level == 0,
        n0.sub_level == 0,
        levels_numbered(ls),
        named(lay_levels(g0, n0, ls, e, k).0, lay_levels(g0, n0, ls, e, k).1, nm),
    ensures
        forall|p: int|
            0 <= p < ls.len() ==> #[trigger] named(
                level_routes(g0, n0, ls, p, e, k).0,
                level_routes(g0, n0, ls, p, e, k).1,
                nm,
            ),
    decreases ls.len(),
{
    if ls.len() > 0 {
        let dl = ls.drop_last();
        let l = ls.last();
        let last = ls.len() - 1;
        lemma_levels_numbered_prefix(ls);
        lemma_levels_shape(g0, n0, dl, e, k);
        let first_level = ls.len() == 1;
        let g1 = grp_fill_level(g0, l, e, first_level).0;
        let n1 = name_fill_level(n0, l, k, first_level).0;
        let x = lay_levels(g0, n0, ls, e, k);
        let xd = lay_levels(g0, n0, dl, e, k);
        let xr = lay_routes(g1, n1, l.available_enchants, l.level, e, k);
        assert(x.0 == xd.0.push(g1) + xr.0);
        assert(x.1 == xd.1.push(n1) + xr.1);
        lemma_named_split(xd.0.push(g1), xr.0, xd.1.push(n1), xr.1, nm);
        assert(xd.0.push(g1) =~= xd.0 + seq![g1]);
        assert(xd.1.push(n1) =~= xd.1 + seq![n1]);
        lemma_named_split(xd.0, seq![g1], xd.1, seq![n1], nm);
        lemma_levels_named(g0, n0, dl, e, k, nm);
        assert forall|p: int| 0 <= p < ls.len() implies #[trigger] named(
            level_routes(g0, n0, ls, p, e, k).0,
            level_routes(g0, n0, ls, p, e, k).1,
            nm,
        ) by {
            if p < last {
                assert(dl[p] == ls[p]);
                assert(level_routes(g0, n0, dl, p, e, k) == level_routes(g0, n0, ls, p, e, k));
            } else {
                assert(l == ls[p]);
                assert(level_routes(g0, n0, ls, p, e, k) == xr);
            }
        }
    }
}

/// Reading the routes of each level, among all records of a skill's levels, gives
/// back that level's routes.
#[verifier::spinoff_prover]
pub proof fn lemma_level_enchants(
    g0: SkillGrpDatView,
    n0: SkillNameDat,
    ls: Seq<SkillLevelInfoView>,
    e: Seq<Seq<char>>,
    k: Seq<Seq<char>>,
    pool: Seq<Seq<char>>,
    first: SkillGrpDatView,
    fname: SkillNameDat,
    sdesc: Seq<char>,
    nm: Map<u64, SkillNameDat>,
    d: Map<u32, Seq<char>>,
    p: int,
)
    requires
        0 <= p < ls.len(),
        g0.sub_level == 0,
        n0.sub_level == 0,
        levels_numbered(ls),
        levels_fit(ls, e, k, pool),
        routes_readable(ls[p].available_enchants, level_grp(g0, ls, p, e), first, e, sdesc),
        gexact(e, pool),
        dict_of(d, k),
        find_last(k, sdesc) >= 0,
        fname.desc == find_last(k, sdesc) as u32,
        named(lay_levels(g0, n0, ls, e, k).0, lay_levels(g0, n0, ls, e, k).1, nm),
    ensures
        enchants_for_key(lay_levels(g0, n0, ls, e, k).0, p + 1, first, fname, nm, d, e) == ls[p].available_enchants,
{
    let all = lay_levels(g0, n0, ls, e, k).0;
    let l = ls[p];
    let es = l.available_enchants;
    let lv = (p + 1) as u8;
    let gl = level_grp(g0, ls, p, e);
    let nl = level_name(n0, ls, p, k);
    assert(l.level == p + 1 && routes_subs_ok(es));
    assert(gl.level == lv);
    lemma_levels_groups(g0, n0, ls, e, k);
    lemma_routes_groups(gl, nl, es, l.level, e, k);
    lemma_levels_named(g0, n0, ls, e, k, nm);
    assert(named(level_routes(g0, n0, ls, p, e, k).0, level_routes(g0, n0, ls, p, e, k).1, nm));
    lemma_routes_named(gl, nl, es, l.level, e, k, nm);
    assert(level_fits(l, p == 0, e, k, pool));
    assert forall|v: int| #[trigger] group_records(all, lv, v) == group_records(lay_routes(gl, nl, es, l.level, e, k).0, lv, v) by {
        assert(group_records(all, lv, v) == group_records(level_routes(g0, n0, ls, lv - 1, e, k).0, lv, v));
    }
    assert forall|r: int| 0 <= r < es.len() implies group_records(all, lv, (#[trigger] es[r]).enchant_type as int).len() > 0
        && enchant_from_group(group_records(all, lv, es[r].enchant_type as int), first, fname, nm, d, e) == es[r] by {
        assert(group_records(all, lv, es[r].enchant_type as int) == route_recs(gl, nl, es, l.level, e, k, r).0);
        assert(route_readable(es[r], gl, first, e, sdesc));
        assert(route_fits(es[r], e, k, pool));
        assert(named(route_recs(gl, nl, es, l.level, e, k, r).0, route_recs(gl, nl, es, l.level, e, k, r).1, nm));
        lemma_els_shape(
            grp_fill_enchant(gl, es[r], e, l.level).0,
            name_fill_enchant(nl, es[r], k, l.level).0,
            es[r].enchant_levels,
            es[r].enchant_type,
            e,
            k,
        );
        lemma_route_read(gl, nl, es[r], l.level, e, k, pool, first, fname, sdesc, nm, d);
    }
    assert forall|v: int| (forall|r: int| 0 <= r < es.len() ==> (#[trigger] es[r]).enchant_type as int != v)
        implies #[trigger] group_records(all, lv, v).len() == 0 by {
        assert(group_records(all, lv, v) == group_records(lay_routes(gl, nl, es, l.level, e, k).0, gl.level, v));
    }
    lemma_upto_read(all, lv, es, 33, first, fname, nm, d, e);
    lemma_below(es, 33);
    assert(below(es, 33) == es.len()) by {
        if below(es, 33) < es.len() {
            let w = below(es, 33);
            assert(route_readable(es[w], gl, first, e, sdesc));
            assert(route_subs_ok(es[w]));
            assert(sub_readable(es[w].enchant_type, es[w].enchant_levels[0].level));
        }
    }
    assert(es.subrange(0, es.len() as int) =~= es);
}

// ------------------------------------------------------------------------------------------
// Name records by key
// ------------------------------------------------------------------------------------------

/// The name record a record of `names` has under its key is the last one with that key;
/// where no other record has its key, it is the record itself.
pub proof fn lemma_names_by_key_distinct(names: Seq<SkillNameDat>, p: int)
    requires
        0 <= p < names.len(),
        forall|q: int|
            0 <= q < names.len() && q != p ==> name_key(names[q].id, names[q].level, names[q].sub_level)
                != name_key(names[p].id, names[p].level, names[p].sub_level),
    ensures
        names_by_key(names).contains_key(name_key(names[p].id, names[p].level, names[p].sub_level)),
        names_by_key(names)[name_key(names[p].id, names[p].level, names[p].sub_level)] == names[p],
    decreases names.len(),
{
    let k = name_key(names[p].id, names[p].level, names[p].sub_level);
    let d = names.drop_last();
    if p < names.len() - 1 {
        assert(d[p] == names[p]);
        assert forall|q: int| 0 <= q < d.len() && q != p implies name_key(d[q].id, d[q].level, d[q].sub_level)
            != name_key(d[p].id, d[p].level, d[p].sub_level) by {
            assert(d[q] == names[q]);
        }
        lemma_names_by_key_distinct(d, p);
        let l = names.last();
        assert(l == names[names.len() - 1]);
        assert(name_key(l.id, l.level, l.sub_level) != k);
    }
}

/// Keys of one skill differ where level or sub-level differ.
pub proof fn lemma_key_distinct(id: u32, l1: i16, s1: i16, l2: i16, s2: i16)
    requires
        0 <= l1,
        0 <= s1,
        0 <= l2,
        0 <= s2,
        l1 != l2 || s1 != s2,
    ensures
        name_key(id, l1, s1) != name_key(id, l2, s2),
{
    let a1 = (l1 as u16) as int;
    let b1 = (s1 as u16) as int;
    let a2 = (l2 as u16) as int;
    let b2 = (s2 as u16) as int;
    assert(a1 == l1 && b1 == s1 && a2 == l2 && b2 == s2);
    let i = id as int;
    assert(0 <= i * 0x1_0000_0000 + a1 * 0x10000 + b1 <= u64::MAX) by (nonlinear_arith)
        requires
            0 <= i <= 0xffff_ffff,
            0 <= a1 <= 0x7fff,
            0 <= b1 <= 0x7fff,
    ;
    assert(0 <= i * 0x1_0000_0000 + a2 * 0x10000 + b2 <= u64::MAX) by (nonlinear_arith)
        requires
            0 <= i <= 0xffff_ffff,
            0 <= a2 <= 0x7fff,
            0 <= b2 <= 0x7fff,
    ;
    assert(a1 * 0x10000 + b1 != a2 * 0x10000 + b2) by (nonlinear_arith)
        requires
            0 <= b1 < 0x10000,
            0 <= b2 < 0x10000,
            a1 != a2 || b1 != b2,
    ;
}

/// Every record written for a skill's levels finds, by its key, the name record
/// written with it.
#[verifier::spinoff_prover]
pub proof fn lemma_levels_keyed(
    g0: SkillGrpDatView,
    n0: SkillNameDat,
    ls: Seq<SkillLevelInfoView>,
    e: Seq<Seq<char>>,
    k: Seq<Seq<char>>,
)
    requires
        g0.sub_level == 0,
        n0.sub_level == 0,
        g0.id as u32 == n0.id,
        levels_numbered(ls),
    ensures
        named(
            lay_levels(g0, n0, ls, e, k).0,
            lay_levels(g0, n0, ls, e, k).1,
            names_by_key(lay_levels(g0, n0, ls, e, k).1),
        ),
{
    lemma_levels_shape(g0, n0, ls, e, k);
    let x = lay_levels(g0, n0, ls, e, k);
    let names = x.1;
    assert forall|i: int| 0 <= i < x.0.len() implies name_of(names_by_key(names), #[trigger] x.0[i]) == names[i] by {
        assert(x.0[i].id == g0.id);
        assert forall|q: int| 0 <= q < names.len() && q != i implies name_key(names[q].id, names[q].level, names[q].sub_level)
            != name_key(names[i].id, names[i].level, names[i].sub_level) by {
            assert(x.0[q].id == g0.id);
            if q < i {
                assert(names[q].level != names[i].level || names[q].sub_level != names[i].sub_level);
            } else {
                assert(names[i].level != names[q].level || names[i].sub_level != names[q].sub_level);
            }
            lemma_key_distinct(n0.id, names[q].level, names[q].sub_level, names[i].level, names[i].sub_level);
        }
        lemma_names_by_key_distinct(names, i);
        assert(x.0[i].level as i16 == names[i].level);
    }
}

} // verus!
