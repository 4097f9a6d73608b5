//! What reading gives back of what writing a skill produced.
use vstd::prelude::*;
use crate::string_table::{
    find_last, folded, general_intern_all, general_key, general_lookup, lemma_find_last,
    lemma_general_intern_all_len, skill_intern_all,
};
use crate::text::{lowercase, uppercase};
use crate::skill::{EnchantInfoView, SkillLevelInfoView, SkillSoundInfoView, SkillView, SoundInfoView};
use crate::skill_load::{
    enchants_for_key, lemma_levels_from_len, level_record_count, levels_from, name_of, names_by_key,
    skill_from, sound_info_from,
};
use crate::skill_dat::{
    as_u32s, grp_fill_level, grp_fill_skill, initial_state, is_sound_record, is_source_record,
    level_fold, name_fill_level, name_fill_skill, skill_count, skill_step,
    sound_params, sound_sources, sound_texts, zero_grp, zero_name, SerState,
    SkillGrpDatView, SkillNameDat, SkillSoundDat, SkillSoundSourceDat,
};
use crate::skill_layout::{
    drawn_from, gstable, kstable, lay_levels, lemma_drawn_trans, lemma_gintern, lemma_gstable_trans,
    lemma_kintern, lemma_kstable_trans, lemma_levels_written, lemma_within_concat, level_fits,
    level_gtexts, levels_fit, route_fits, el_fits, within,
};
use crate::skill_reread::{
    dict_of, el_readable, gexact, lemma_dict_text, lemma_level_enchants,
    lemma_levels_keyed, lemma_levels_read, lemma_levels_shape, lemma_lookup_bounds, level_grp,
    level_name, level_readable, levels_numbered, named, route_readable, route_subs_ok, routes_readable,
    sub_readable,
};

verus! {

/// Whether every text is non-empty and spelled like every text of the pool, and
/// of itself, that it equals up to case: interning then finds or adds exactly it.
pub open spec fn spelled_alike(pool: Seq<Seq<char>>, texts: Seq<Seq<char>>) -> bool {
    &&& forall|j: int| 0 <= j < texts.len() ==> (#[trigger] texts[j]).len() > 0
    &&& forall|a: Seq<char>, j: int|
        #![trigger lowercase(a), texts[j]]
        (pool.contains(a) || texts.contains(a)) && 0 <= j < texts.len() && lowercase(a) == lowercase(texts[j])
            ==> a == texts[j]
}

/// Whether a skill's sounds are read back as written: the sound record repeats
/// shot values in the explosion columns and the first explosion source in the
/// other two, so those must agree already.
pub open spec fn sounds_round_trip(i: SkillSoundInfoView) -> bool {
    let e = i.effects;
    &&& e.len() == 9
    &&& i.sound_before_cast.len() == 18
    &&& i.sound_after_cast.len() == 18
    &&& e[6].vol == e[3].vol && e[6].rad == e[3].rad && e[6].delay == e[3].delay
    &&& e[7].vol == e[4].vol && e[7].rad == e[4].rad && e[7].delay == e[4].delay
    &&& e[8].vol == e[3].vol && e[8].rad == e[4].rad && e[8].delay == e[5].delay
    &&& e[7].source == e[6].source && e[8].source == e[6].source
}

/// Reading a sound record and its source record gives back the sounds they were
/// written from, where the general table still holds, at the numbers the record
/// holds, the sound names it was given.
pub proof fn lemma_sound_read(
    s: crate::skill::SkillView,
    gdn0: Seq<Seq<char>>,
    gdn: Seq<Seq<char>>,
    r: SkillSoundDat,
    src: SkillSoundSourceDat,
)
    requires
        sounds_round_trip(s.sound_info),
        is_sound_record(r, s, gdn0),
        is_source_record(src, s),
        ({
            let (e, idx) = general_intern_all(gdn0, sound_texts(s.sound_info));
            &&& idx.len() == 47
            &&& forall|j: int| 0 <= j < 47 ==> 0 <= #[trigger] idx[j] < e.len() && idx[j] <= u32::MAX && gdn[idx[j]] == sound_texts(s.sound_info)[j]
        }),
    ensures
        sound_info_from(r, src, gdn) == s.sound_info,
{
    let i = s.sound_info;
    let t = sound_texts(i);
    let idx = general_intern_all(gdn0, t).1;
    let e = i.effects;
    assert(t.len() == 47);
    let back = sound_info_from(r, src, gdn);
    assert forall|k: int| 0 <= k < 9 implies #[trigger] back.effects[k] == e[k] by {
        assert(r.effect_sounds@[k] == as_u32s(idx.subrange(0, 9))[k]);
        assert(as_u32s(idx.subrange(0, 9))[k] == idx[k] as u32);
        assert(t[k] == e[k].sound);
        assert(gdn[r.effect_sounds@[k] as int] == t[k]);
        assert(r.effect_params@ == sound_params(i));
        assert(src.effects@ == sound_sources(i));
        assert(back.effects[k] == SoundInfoView {
            sound: gdn[r.effect_sounds@[k] as int],
            vol: r.effect_params@[3 * k],
            rad: r.effect_params@[3 * k + 1],
            delay: r.effect_params@[3 * k + 2],
            source: src.effects@[k],
        });
    }
    assert(back.effects =~= e);
    assert forall|k: int| 0 <= k < 18 implies #[trigger] back.sound_before_cast[k] == i.sound_before_cast[k] by {
        assert(r.cast_sounds@[k] == as_u32s(idx.subrange(9, 27))[k]);
        assert(as_u32s(idx.subrange(9, 27))[k] == idx[9 + k] as u32);
        assert(t[9 + k] == i.sound_before_cast[k]);
        assert(back.sound_before_cast[k] == gdn[r.cast_sounds@[k] as int]);
    }
    assert(back.sound_before_cast =~= i.sound_before_cast);
    assert forall|k: int| 0 <= k < 18 implies #[trigger] back.sound_after_cast[k] == i.sound_after_cast[k] by {
        assert(r.magic_sounds@[k] == as_u32s(idx.subrange(28, 46))[k]);
        assert(as_u32s(idx.subrange(28, 46))[k] == idx[28 + k] as u32);
        assert(t[28 + k] == i.sound_after_cast[k]);
        assert(back.sound_after_cast[k] == gdn[r.magic_sounds@[k] as int]);
    }
    assert(back.sound_after_cast =~= i.sound_after_cast);
    assert(t[27] == i.mextra_throw);
    assert(t[46] == i.fextra_throw);
    assert(back.mextra_throw == gdn[r.mextra_throw as int]);
}

/// The texts that writing a skill numbers through the general table: its sound
/// names, animations, icon, panel icon and "None", then the icons of its levels
/// after the first and of all its routes and enchant levels.
pub open spec fn general_texts(s: SkillView) -> Seq<Seq<char>> {
    sound_texts(s.sound_info) + s.animations + seq![s.icon, s.icon_panel, "None"@] + level_gtexts(s.skill_levels)
}

/// Whether an enchant level's icon reads back: present, it is not the skill's icon;
/// absent, the icon before it (the level's for the first enchant level, else the
/// previous enchant level's) is absent too, as writing carries that one over.
pub open spec fn chained_icon(o: Option<Seq<char>>, before: Option<Seq<char>>, skill_icon: Seq<char>) -> bool {
    &&& o matches Some(t) ==> t != skill_icon
    &&& o is None ==> before is None
}

/// Whether a route of level `l` reads back: it has enchant levels, numbered up to 999
/// without repeats, whose sub-levels are not 0 and fit 16 bits; their icons chain as
/// `chained_icon` says; its own description, where it has one, is neither empty nor
/// the skill's.
#[verifier::opaque]
pub open spec fn route_form(rt: EnchantInfoView, l: SkillLevelInfoView, s: SkillView) -> bool {
    let els = rt.enchant_levels;
    &&& els.len() > 0
    &&& forall|j1: int, j2: int| 0 <= j1 < j2 < els.len() ==> (#[trigger] els[j1]).level != (#[trigger] els[j2]).level
    &&& forall|j: int|
        0 <= j < els.len() ==> {
            &&& (#[trigger] els[j]).level <= 999
            &&& 1 <= rt.enchant_type * 1000 + els[j].level <= 32767
            &&& chained_icon(
                els[j].icon,
                if j == 0 {
                    l.icon
                } else {
                    els[j - 1].icon
                },
                s.icon,
            )
            &&& chained_icon(
                els[j].icon_panel,
                if j == 0 {
                    l.icon_panel
                } else {
                    els[j - 1].icon_panel
                },
                s.icon_panel,
            )
        }
    &&& rt.skill_description matches Some(t) ==> t.len() > 0 && t != s.description
}

/// Whether level `p` of skill `s` reads back: it is numbered `p + 1`; the first
/// level has neither icons nor a description of its own; another level's icons are
/// not the skill's and its description is neither empty nor "\0" nor the skill's;
/// its routes come in ascending order of type and each reads back.
#[verifier::opaque]
pub open spec fn level_form(l: SkillLevelInfoView, p: int, s: SkillView) -> bool {
    let es = l.available_enchants;
    &&& l.level == p + 1
    &&& p == 0 ==> l.icon is None && l.icon_panel is None && l.description is None
    &&& p > 0 ==> (l.icon matches Some(t) ==> t != s.icon) && (l.icon_panel matches Some(t) ==> t != s.icon_panel)
    &&& p > 0 ==> (l.description matches Some(t) ==> t.len() > 0 && t != seq!['\0'] && t != s.description)
    &&& forall|r1: int, r2: int| 0 <= r1 < r2 < es.len() ==> (#[trigger] es[r1]).enchant_type < (#[trigger] es[r2]).enchant_type
    &&& forall|r: int| 0 <= r < es.len() ==> route_form(#[trigger] es[r], l, s)
}

/// Whether a skill is read back exactly as it was written: it has between 1 and 255
/// levels, each as `level_form` says; the id fits 16 bits and the origin skill
/// survives the 16-bit record field; the cast bar colour follows the debuff flag
/// (writing stores the one for the other); the sounds agree where the sound record
/// repeats columns; and the texts of the general table are spelled alike with what
/// the table holds. Reading gives the animation names back upper-cased
/// (`upper_animations`).
pub open spec fn round_trip_form(s: SkillView, gdn0: Seq<Seq<char>>) -> bool {
    &&& skill_form(s)
    &&& spelled_alike(gdn0, general_texts(s))
}

/// The conditions of `round_trip_form` on the skill itself.
pub open spec fn skill_form(s: SkillView) -> bool {
    let ls = s.skill_levels;
    &&& 1 <= ls.len() <= 255
    &&& forall|p: int| 0 <= p < ls.len() ==> level_form(#[trigger] ls[p], p, s)
    &&& s.id.0 <= 0xffff
    &&& ((s.origin_skill.0 as i16) as u32) == s.origin_skill.0
    &&& s.cast_bar_text_is_red == s.is_debuff
    &&& sounds_round_trip(s.sound_info)
}

/// The skill with its animation names upper-cased, as reading gives them.
pub open spec fn upper_animations(s: SkillView) -> SkillView {
    SkillView { animations: s.animations.map_values(|a: Seq<char>| uppercase(a)), ..s }
}

/// A general table whose entries come from the old table and from texts spelled
/// alike with it gives back exactly each of those texts it finds.
pub proof fn lemma_gexact(e: Seq<Seq<char>>, gdn0: Seq<Seq<char>>, pool: Seq<Seq<char>>)
    requires
        spelled_alike(gdn0, pool),
        drawn_from(e, gdn0, pool),
        e.len() < u32::MAX,
    ensures
        gexact(e, pool),
{
    assert forall|t: Seq<char>| pool.contains(t) && general_lookup(e, t) >= 0 implies e[#[trigger] general_lookup(e, t)] == t by {
        let f = general_lookup(e, t);
        let j = choose|j: int| 0 <= j < pool.len() && pool[j] == t;
        assert(pool[j].len() > 0);
        lemma_find_last(folded(e), lowercase(general_key(t)));
        assert(folded(e)[f] == lowercase(e[f]));
        assert(gdn0.contains(e[f]) || pool.contains(e[f]));
        assert(lowercase(e[f]) == lowercase(pool[j]));
    }
}

/// Distinct texts that the general table gives back exactly have distinct 32-bit
/// numbers.
pub proof fn lemma_icon_differs(e: Seq<Seq<char>>, pool: Seq<Seq<char>>, t: Seq<char>, u: Seq<char>)
    requires
        gexact(e, pool),
        pool.contains(t),
        pool.contains(u),
        general_lookup(e, t) >= 0,
        general_lookup(e, u) >= 0,
        t != u,
    ensures
        general_lookup(e, t) as u32 != general_lookup(e, u) as u32,
{
    lemma_lookup_bounds(e, t);
    lemma_lookup_bounds(e, u);
    assert(e[general_lookup(e, t)] == t);
    assert(e[general_lookup(e, u)] == u);
}

/// The first records written for a skill's levels are those of its first level.
pub proof fn lemma_lay_first(
    g0: SkillGrpDatView,
    n0: SkillNameDat,
    ls: Seq<SkillLevelInfoView>,
    e: Seq<Seq<char>>,
    k: Seq<Seq<char>>,
)
    requires
        ls.len() > 0,
    ensures
        lay_levels(g0, n0, ls, e, k).0.len() > 0,
        lay_levels(g0, n0, ls, e, k).1.len() > 0,
        lay_levels(g0, n0, ls, e, k).0[0] == level_grp(g0, ls, 0, e),
        lay_levels(g0, n0, ls, e, k).1[0] == level_name(n0, ls, 0, k),
    decreases ls.len(),
{
    let dl = ls.drop_last();
    let x = lay_levels(g0, n0, ls, e, k);
    let xd = lay_levels(g0, n0, dl, e, k);
    let first = ls.len() == 1;
    let g1 = grp_fill_level(g0, ls.last(), e, first).0;
    let n1 = name_fill_level(n0, ls.last(), k, first).0;
    let xr = crate::skill_layout::lay_routes(g1, n1, ls.last().available_enchants, ls.last().level, e, k);
    assert(x.0 == xd.0.push(g1) + xr.0);
    assert(x.1 == xd.1.push(n1) + xr.1);
    if ls.len() == 1 {
        assert(xd.0.len() == 0 && xd.1.len() == 0);
        assert(ls.last() == ls[0]);
        assert(x.0[0] == g1);
        assert(x.1[0] == n1);
    } else {
        lemma_lay_first(g0, n0, dl, e, k);
        assert(dl[0] == ls[0]);
        assert(x.0[0] == xd.0[0]);
        assert(x.1[0] == xd.1[0]);
    }
}

/// The conditions of `level_form` give the conditions under which the records of
/// the level, and of its routes, read back.
#[verifier::spinoff_prover]
pub proof fn lemma_level_bridge(
    g0: SkillGrpDatView,
    ls: Seq<SkillLevelInfoView>,
    p: int,
    s: SkillView,
    e: Seq<Seq<char>>,
    k: Seq<Seq<char>>,
    pool: Seq<Seq<char>>,
    first: SkillGrpDatView,
)
    requires
        0 <= p < ls.len(),
        level_form(ls[p], p, s),
        level_fits(ls[p], p == 0, e, k, pool),
        gexact(e, pool),
        pool.contains(s.icon),
        pool.contains(s.icon_panel),
        general_lookup(e, s.icon) >= 0,
        general_lookup(e, s.icon_panel) >= 0,
        first.icon == general_lookup(e, s.icon) as u32,
        first.icon_panel == general_lookup(e, s.icon_panel) as u32,
        g0.icon == first.icon,
        g0.icon_panel == first.icon_panel,
    ensures
        level_readable(ls[p], p, first, e, s.description),
        routes_readable(ls[p].available_enchants, level_grp(g0, ls, p, e), first, e, s.description),
{
    reveal(level_form);
    reveal(route_form);
    let l = ls[p];
    let es = l.available_enchants;
    let gl = level_grp(g0, ls, p, e);
    if p > 0 {
        match l.icon {
            Some(t) => {
                lemma_icon_differs(e, pool, t, s.icon);
            },
            None => {},
        }
        match l.icon_panel {
            Some(t) => {
                lemma_icon_differs(e, pool, t, s.icon_panel);
            },
            None => {},
        }
    }
    assert(l.icon is None ==> gl.icon == g0.icon);
    assert(l.icon_panel is None ==> gl.icon_panel == g0.icon_panel);
    assert forall|r: int| 0 <= r < es.len() implies route_readable(#[trigger] es[r], gl, first, e, s.description) by {
        let rt = es[r];
        let els = rt.enchant_levels;
        assert(route_form(rt, l, s));
        assert(route_fits(rt, e, k, pool));
        assert(route_subs_ok(rt)) by {
            assert forall|j: int| 0 <= j < els.len() implies sub_readable(rt.enchant_type, (#[trigger] els[j]).level) by {}
        }
        assert forall|j: int| 0 <= j < els.len() implies #[trigger] el_readable(els, j, rt.enchant_type, gl, first, e) by {
            let el = els[j];
            assert(el_fits(el, e, k, pool));
            match el.icon {
                Some(t) => {
                    lemma_icon_differs(e, pool, t, s.icon);
                },
                None => {},
            }
            match el.icon_panel {
                Some(t) => {
                    lemma_icon_differs(e, pool, t, s.icon_panel);
                },
                None => {},
            }
        }
    }
}

/// The texts of a skill's own level record, in the order writing numbers them.
pub open spec fn skill_gtexts(s: SkillView) -> Seq<Seq<char>> {
    s.animations + seq![s.icon, s.icon_panel, "None"@]
}

/// The records written for a skill's levels, starting from its own records, as the
/// final tables number them.
pub open spec fn skill_lay(s: SkillView, e: Seq<Seq<char>>, kk: Seq<Seq<char>>) -> (Seq<SkillGrpDatView>, Seq<SkillNameDat>) {
    lay_levels(grp_fill_skill(zero_grp(), s, e).0, name_fill_skill(zero_name(), s, kk).0, s.skill_levels, e, kk)
}

/// Whether the final tables find every text that writing skill `s` numbered, its
/// sound names numbered from the general table `g` it was written with, and each
/// general text of it is in the pool.
pub open spec fn written_fits(
    s: SkillView,
    g: Seq<Seq<char>>,
    e: Seq<Seq<char>>,
    kk: Seq<Seq<char>>,
    pool: Seq<Seq<char>>,
) -> bool {
    let t1 = sound_texts(s.sound_info);
    let t2 = skill_gtexts(s);
    let idx1 = general_intern_all(g, t1).1;
    &&& levels_fit(s.skill_levels, e, kk, pool)
    &&& forall|j: int| 0 <= j < t2.len() ==> general_lookup(e, #[trigger] t2[j]) >= 0 && pool.contains(t2[j])
    &&& find_last(kk, s.name) >= 0
    &&& find_last(kk, s.description) >= 0
    &&& idx1.len() == 47
    &&& forall|j: int|
        0 <= j < 47 ==> 0 <= #[trigger] idx1[j] < general_intern_all(g, t1).0.len() && idx1[j] == general_lookup(e, t1[j])
            && pool.contains(t1[j])
}

/// Writing a skill with levels appends the records laid out by the final tables,
/// which find every text written; the tables only extend, within the counted growth,
/// by texts of the pool; the sound record is listed with the general table as it
/// was before.
#[verifier::spinoff_prover]
pub proof fn lemma_skill_step_written(
    st: SerState,
    s: SkillView,
    e: Seq<Seq<char>>,
    kk: Seq<Seq<char>>,
    pool: Seq<Seq<char>>,
)
    requires
        within(general_texts(s), pool),
        sounds_round_trip(s.sound_info),
        s.skill_levels.len() > 0,
        gstable(skill_step(st, s).gdn, e),
        kstable(skill_step(st, s).sk, kk),
    ensures
        ({
            let r = skill_step(st, s);
            let x = skill_lay(s, e, kk);
            &&& r.grps == st.grps + x.0
            &&& r.names == st.names + x.1
            &&& written_fits(s, st.gdn, e, kk, pool)
            &&& gstable(st.gdn, r.gdn)
            &&& kstable(st.sk, r.sk)
            &&& drawn_from(r.gdn, st.gdn, pool)
            &&& r.gdn.len() <= st.gdn.len() + skill_count(s)
            &&& r.sk.len() <= st.sk.len() + skill_count(s)
            &&& r.sound_gdn == st.sound_gdn.push(st.gdn)
            &&& r.sound_skills == st.sound_skills.push(s)
        }),
{
    let ls = s.skill_levels;
    let t1 = sound_texts(s.sound_info);
    let t2 = skill_gtexts(s);
    assert(general_texts(s) =~= t1 + t2 + level_gtexts(ls));
    assert(t1.len() == 47);
    lemma_within_concat(t1 + t2, level_gtexts(ls), pool);
    lemma_within_concat(t1, t2, pool);
    assert forall|j: int| 0 <= j < t1.len() implies pool.contains(general_key(#[trigger] t1[j])) by {}
    assert forall|j: int| 0 <= j < t2.len() implies pool.contains(general_key(#[trigger] t2[j])) by {}
    lemma_gintern(st.gdn, t1, pool);
    lemma_general_intern_all_len(st.gdn, t1);
    let gdn_s = general_intern_all(st.gdn, t1).0;
    let idx1 = general_intern_all(st.gdn, t1).1;
    lemma_gintern(gdn_s, t2, pool);
    let (g0, gdn1) = grp_fill_skill(zero_grp(), s, gdn_s);
    assert(gdn1 == general_intern_all(gdn_s, t2).0);
    let kt = seq![s.name, s.description];
    lemma_kintern(st.sk, kt);
    let (n0, sk1) = name_fill_skill(zero_name(), s, st.sk);
    assert(sk1 == skill_intern_all(st.sk, kt).0);
    let st1 = SerState {
        gdn: gdn1,
        sk: sk1,
        sound_gdn: st.sound_gdn.push(st.gdn),
        sound_skills: st.sound_skills.push(s),
        ..st
    };
    let r = level_fold(st1, g0, n0, ls);
    assert(skill_step(st, s) == r);
    lemma_levels_written(st1, g0, n0, ls, e, kk, pool);
    lemma_gstable_trans(gdn1, r.gdn, e);
    lemma_gstable_trans(gdn_s, gdn1, e);
    lemma_kstable_trans(sk1, r.sk, kk);
    crate::skill_layout::lemma_gintern_final(gdn_s, t2, e);
    crate::skill_layout::lemma_kintern_final(st.sk, kt, kk);
    assert(g0 == grp_fill_skill(zero_grp(), s, e).0);
    assert(n0 == name_fill_skill(zero_name(), s, kk).0);
    assert(r.grps =~= st.grps + skill_lay(s, e, kk).0);
    assert(r.names =~= st.names + skill_lay(s, e, kk).1);
    lemma_gstable_trans(st.gdn, gdn_s, gdn1);
    lemma_gstable_trans(st.gdn, gdn1, r.gdn);
    lemma_kstable_trans(st.sk, sk1, r.sk);
    lemma_drawn_trans(gdn1, gdn_s, st.gdn, pool);
    lemma_drawn_trans(r.gdn, gdn1, st.gdn, pool);
    assert forall|j: int| 0 <= j < t2.len() implies general_lookup(e, #[trigger] t2[j]) >= 0 && pool.contains(t2[j]) by {
        assert(general_lookup(gdn1, t2[j]) >= 0);
    }
    assert(kt[0] == s.name && kt[1] == s.description);
    assert(find_last(kk, s.name) >= 0) by {
        assert(find_last(sk1, kt[0]) >= 0);
    }
    assert(find_last(kk, s.description) >= 0) by {
        assert(find_last(sk1, kt[1]) >= 0);
    }
    lemma_gstable_trans(gdn_s, gdn1, e);
    assert forall|j: int| 0 <= j < 47 implies 0 <= #[trigger] idx1[j] < gdn_s.len() && idx1[j] == general_lookup(e, t1[j])
        && pool.contains(t1[j]) by {
        assert(general_lookup(gdn_s, t1[j]) == idx1[j]);
    }
}

/// Writing a skill that `round_trip_form` admits lays out its records as the final
/// tables number them, starting from the skill's own records, which the final
/// tables number the same way; the general table gives back exactly every text of
/// the skill it finds, and finds each; both tables fit 32-bit numbers.
proof fn lemma_skill_written(s: SkillView, gdn0: Seq<Seq<char>>) -> (r: (SkillGrpDatView, SkillNameDat))
    requires
        spelled_alike(gdn0, general_texts(s)),
        sounds_round_trip(s.sound_info),
        s.skill_levels.len() > 0,
        gdn0.len() + skill_count(s) < u32::MAX,
    ensures
        ({
            let st = skill_step(initial_state(gdn0), s);
            let e = st.gdn;
            let kk = st.sk;
            let pool = general_texts(s);
            let t1 = sound_texts(s.sound_info);
            let t2 = skill_gtexts(s);
            let idx1 = general_intern_all(gdn0, t1).1;
            &&& r.0 == grp_fill_skill(zero_grp(), s, e).0
            &&& r.1 == name_fill_skill(zero_name(), s, kk).0
            &&& st.grps == lay_levels(r.0, r.1, s.skill_levels, e, kk).0
            &&& st.names == lay_levels(r.0, r.1, s.skill_levels, e, kk).1
            &&& gexact(e, pool)
            &&& kk.len() < u32::MAX
            &&& levels_fit(s.skill_levels, e, kk, pool)
            &&& forall|j: int| 0 <= j < t2.len() ==> general_lookup(e, #[trigger] t2[j]) >= 0 && pool.contains(t2[j])
            &&& find_last(kk, s.name) >= 0
            &&& find_last(kk, s.description) >= 0
            &&& idx1.len() == 47
            &&& forall|j: int|
                0 <= j < 47 ==> 0 <= #[trigger] idx1[j] < general_intern_all(gdn0, t1).0.len() && idx1[j] <= u32::MAX
                    && e[idx1[j]] == t1[j]
            &&& st.sound_gdn == seq![gdn0]
            &&& st.sound_skills == seq![s]
        }),
{
    let st0 = initial_state(gdn0);
    let st = skill_step(st0, s);
    let e = st.gdn;
    let kk = st.sk;
    let pool = general_texts(s);
    let t1 = sound_texts(s.sound_info);
    assert(within(pool, pool)) by {
        assert forall|j: int| 0 <= j < pool.len() implies pool.contains(#[trigger] pool[j]) && pool[j].len() > 0 by {}
    }
    lemma_skill_step_written(st0, s, e, kk, pool);
    lemma_gexact(e, gdn0, pool);
    let idx1 = general_intern_all(gdn0, t1).1;
    assert forall|j: int| 0 <= j < 47 implies 0 <= #[trigger] idx1[j] < general_intern_all(gdn0, t1).0.len() && idx1[j] <= u32::MAX
        && e[idx1[j]] == t1[j] by {
        lemma_lookup_bounds(e, t1[j]);
    }
    assert(st.grps =~= skill_lay(s, e, kk).0);
    assert(st.names =~= skill_lay(s, e, kk).1);
    assert(st.sound_gdn =~= seq![gdn0]);
    assert(st.sound_skills =~= seq![s]);
    (grp_fill_skill(zero_grp(), s, e).0, name_fill_skill(zero_name(), s, kk).0)
}

/// The levels of a skill that `skill_form` admits are numbered from 1 and their
/// routes' sub-levels fit and are distinct.
pub proof fn lemma_form_numbered(s: SkillView)
    requires
        s.skill_levels.len() <= 255,
        forall|p: int| 0 <= p < s.skill_levels.len() ==> level_form(#[trigger] s.skill_levels[p], p, s),
    ensures
        levels_numbered(s.skill_levels),
{
    reveal(level_form);
    reveal(route_form);
    let ls = s.skill_levels;
    assert forall|p: int| 0 <= p < ls.len() implies (#[trigger] ls[p]).level == p + 1 && crate::skill_reread::routes_subs_ok(
        ls[p].available_enchants,
    ) by {
        assert(level_form(ls[p], p, s));
        let es = ls[p].available_enchants;
        assert forall|q: int| 0 <= q < es.len() implies route_subs_ok(#[trigger] es[q]) by {
            assert(route_form(es[q], ls[p], s));
            let els = es[q].enchant_levels;
            assert forall|j: int| 0 <= j < els.len() implies sub_readable(es[q].enchant_type, (#[trigger] els[j]).level) by {}
        }
    }
}

/// The level and enchant records written for a skill, read with their name records
/// by key, give back the skill's levels.
#[verifier::spinoff_prover]
proof fn lemma_levels_back(
    s: SkillView,
    g0: SkillGrpDatView,
    n0: SkillNameDat,
    e: Seq<Seq<char>>,
    kk: Seq<Seq<char>>,
    pool: Seq<Seq<char>>,
    d: Map<u32, Seq<char>>,
    nm: Map<u64, SkillNameDat>,
)
    requires
        1 <= s.skill_levels.len() <= 255,
        forall|p: int| 0 <= p < s.skill_levels.len() ==> level_form(#[trigger] s.skill_levels[p], p, s),
        s.id.0 <= 0xffff,
        named(lay_levels(g0, n0, s.skill_levels, e, kk).0, lay_levels(g0, n0, s.skill_levels, e, kk).1, nm),
        gexact(e, pool),
        dict_of(d, kk),
        levels_fit(s.skill_levels, e, kk, pool),
        g0 == grp_fill_skill(zero_grp(), s, e).0,
        n0 == name_fill_skill(zero_name(), s, kk).0,
        forall|j: int|
            0 <= j < skill_gtexts(s).len() ==> general_lookup(e, #[trigger] skill_gtexts(s)[j]) >= 0 && pool.contains(
                skill_gtexts(s)[j],
            ),
        find_last(kk, s.name) >= 0,
        find_last(kk, s.description) >= 0,
    ensures
        ({
            let x = lay_levels(g0, n0, s.skill_levels, e, kk);
            &&& x.0.len() > 0
            &&& x.0[0] == level_grp(g0, s.skill_levels, 0, e)
            &&& x.1[0] == level_name(n0, s.skill_levels, 0, kk)
            &&& name_of(nm, x.0[0]) == x.1[0]
            &&& levels_from(x.0, x.0, x.0[0], x.1[0], nm, d, e) == s.skill_levels
            &&& level_record_count(x.0) == s.skill_levels.len()
            &&& forall|i: int| 0 <= i < x.0.len() ==> (#[trigger] x.0[i]).id == g0.id
        }),
{
    let ls = s.skill_levels;
    let x = lay_levels(g0, n0, ls, e, kk);
    let t2 = skill_gtexts(s);
    let ka = s.animations.len() as int;
    crate::skill_reread::lemma_gintern_found(e, t2);
    let kt = seq![s.name, s.description];
    assert(kt[0] == s.name && kt[1] == s.description);
    crate::skill_reread::lemma_kintern_found(kk, kt);
    assert(t2[ka] == s.icon && t2[ka + 1] == s.icon_panel);
    assert(pool.contains(s.icon) && pool.contains(s.icon_panel));
    assert(g0.icon == general_lookup(e, s.icon) as u32);
    assert(g0.icon_panel == general_lookup(e, s.icon_panel) as u32);
    assert(n0.desc == find_last(kk, s.description) as u32);
    assert(g0.sub_level == 0 && n0.sub_level == 0);
    assert(g0.id as u32 == n0.id);
    lemma_form_numbered(s);
    lemma_levels_shape(g0, n0, ls, e, kk);
    lemma_lay_first(g0, n0, ls, e, kk);
    let first = x.0[0];
    let fname = name_of(nm, first);
    assert(fname == x.1[0]);
    assert(first == level_grp(g0, ls, 0, e));
    assert(fname == level_name(n0, ls, 0, kk));
    assert(first.icon == g0.icon && first.icon_panel == g0.icon_panel);
    assert(fname.desc == n0.desc);
    // each level and its routes
    assert forall|p: int| 0 <= p < ls.len() implies level_readable(#[trigger] ls[p], p, first, e, s.description)
        && enchants_for_key(x.0, p + 1, first, fname, nm, d, e) == ls[p].available_enchants by {
        assert(level_fits(ls[p], p == 0, e, kk, pool));
        lemma_level_bridge(g0, ls, p, s, e, kk, pool, first);
        lemma_level_enchants(g0, n0, ls, e, kk, pool, first, fname, s.description, nm, d, p);
    }
    lemma_levels_read(g0, n0, ls, e, kk, pool, x.0, first, fname, s.description, nm, d);
    lemma_levels_from_len(x.0, x.0, first, fname, nm, d, e);
    assert forall|i: int| 0 <= i < x.0.len() implies (#[trigger] x.0[i]).id == g0.id by {}
}

/// The records written for a skill, read with the sound records written for it,
/// give back the skill, where its levels read back.
#[verifier::spinoff_prover]
proof fn lemma_skill_back(
    s: SkillView,
    g0: SkillGrpDatView,
    n0: SkillNameDat,
    e: Seq<Seq<char>>,
    kk: Seq<Seq<char>>,
    pool: Seq<Seq<char>>,
    d: Map<u32, Seq<char>>,
    r: SkillSoundDat,
    src: SkillSoundSourceDat,
    all: Seq<SkillGrpDatView>,
    nm: Map<u64, SkillNameDat>,
)
    requires
        all.len() > 0,
        all[0] == level_grp(g0, s.skill_levels, 0, e),
        name_of(nm, all[0]) == level_name(n0, s.skill_levels, 0, kk),
        levels_from(all, all, all[0], name_of(nm, all[0]), nm, d, e) == s.skill_levels,
        g0 == grp_fill_skill(zero_grp(), s, e).0,
        n0 == name_fill_skill(zero_name(), s, kk).0,
        forall|j: int|
            0 <= j < skill_gtexts(s).len() ==> general_lookup(e, #[trigger] skill_gtexts(s)[j]) >= 0 && pool.contains(
                skill_gtexts(s)[j],
            ),
        gexact(e, pool),
        dict_of(d, kk),
        find_last(kk, s.name) >= 0,
        find_last(kk, s.description) >= 0,
        sound_info_from(r, src, e) == s.sound_info,
        s.id.0 <= 0xffff,
        ((s.origin_skill.0 as i16) as u32) == s.origin_skill.0,
        s.cast_bar_text_is_red == s.is_debuff,
    ensures
        skill_from(all, nm, d, r, src, e) == upper_animations(s),
{
    let t2 = skill_gtexts(s);
    let ka = s.animations.len() as int;
    crate::skill_reread::lemma_gintern_found(e, t2);
    let kt = seq![s.name, s.description];
    assert(kt[0] == s.name && kt[1] == s.description);
    crate::skill_reread::lemma_kintern_found(kk, kt);
    assert(t2[ka] == s.icon && t2[ka + 1] == s.icon_panel);
    let first = all[0];
    let fname = name_of(nm, first);
    assert(first.icon == general_lookup(e, s.icon) as u32);
    assert(first.icon_panel == general_lookup(e, s.icon_panel) as u32);
    assert(fname.name == find_last(kk, s.name) as u32);
    assert(fname.desc == find_last(kk, s.description) as u32);
    let back = skill_from(all, nm, d, r, src, e);
    lemma_dict_text(d, kk, s.name);
    lemma_dict_text(d, kk, s.description);
    assert(back.name == s.name);
    assert(back.description == s.description);
    let up = upper_animations(s);
    assert forall|j: int| 0 <= j < ka implies #[trigger] back.animations[j] == up.animations[j] by {
        assert(t2[j] == s.animations[j]);
        assert(first.animation[j] == general_lookup(e, t2[j]) as u32);
        lemma_lookup_bounds(e, t2[j]);
        assert(e[general_lookup(e, t2[j])] == t2[j]);
    }
    assert(back.animations =~= up.animations);
    lemma_lookup_bounds(e, s.icon);
    lemma_lookup_bounds(e, s.icon_panel);
    assert(e[general_lookup(e, s.icon)] == s.icon);
    assert(e[general_lookup(e, s.icon_panel)] == s.icon_panel);
    assert(back.icon == s.icon);
    assert(back.icon_panel == s.icon_panel);
    assert(back.id == s.id);
    assert(back.origin_skill == s.origin_skill);
    assert(back == up);
}

/// The records written for a skill, read with name records that its records find
/// by key and with the sound records written for it, give back the skill.
#[verifier::spinoff_prover]
pub proof fn lemma_skill_read(
    s: SkillView,
    g: Seq<Seq<char>>,
    e: Seq<Seq<char>>,
    kk: Seq<Seq<char>>,
    pool: Seq<Seq<char>>,
    d: Map<u32, Seq<char>>,
    r: SkillSoundDat,
    src: SkillSoundSourceDat,
    nm: Map<u64, SkillNameDat>,
)
    requires
        skill_form(s),
        written_fits(s, g, e, kk, pool),
        gexact(e, pool),
        dict_of(d, kk),
        named(skill_lay(s, e, kk).0, skill_lay(s, e, kk).1, nm),
        is_sound_record(r, s, g),
        is_source_record(src, s),
    ensures
        skill_from(skill_lay(s, e, kk).0, nm, d, r, src, e) == upper_animations(s),
        level_record_count(skill_lay(s, e, kk).0) == s.skill_levels.len(),
        skill_lay(s, e, kk).0.len() > 0,
        forall|i: int| 0 <= i < skill_lay(s, e, kk).0.len() ==> (#[trigger] skill_lay(s, e, kk).0[i]).id == s.id.0 as u16,
{
    let g0 = grp_fill_skill(zero_grp(), s, e).0;
    let n0 = name_fill_skill(zero_name(), s, kk).0;
    let x = skill_lay(s, e, kk);
    let t1 = sound_texts(s.sound_info);
    lemma_levels_back(s, g0, n0, e, kk, pool, d, nm);
    let idx1 = general_intern_all(g, t1).1;
    assert forall|j: int| 0 <= j < 47 implies 0 <= #[trigger] idx1[j] < general_intern_all(g, t1).0.len() && idx1[j] <= u32::MAX
        && e[idx1[j]] == t1[j] by {
        lemma_lookup_bounds(e, t1[j]);
    }
    lemma_sound_read(s, g, e, r, src);
    lemma_skill_back(s, g0, n0, e, kk, pool, d, r, src, x.0, nm);
    assert(g0.id == s.id.0 as u16);
}

/// Writing a skill and reading back the records written gives the same skill, with
/// its animation names upper-cased: the level and enchant records, read with the name records by their key, the texts of
/// the skill name table by number, the sound records written for it and the general
/// table after writing. It holds for the skills that `round_trip_form` admits, whose
/// texts fit the 32-bit numbers of the records; the dictionary `d` is the one read
/// from the skill name table.
#[verifier::spinoff_prover]
pub proof fn law_skill_write_then_read(
    s: SkillView,
    gdn0: Seq<Seq<char>>,
    r: SkillSoundDat,
    src: SkillSoundSourceDat,
    d: Map<u32, Seq<char>>,
)
    requires
        round_trip_form(s, gdn0),
        gdn0.len() + skill_count(s) < u32::MAX,
        is_sound_record(r, s, gdn0),
        is_source_record(src, s),
        forall|i: u32|
            (i as int) < skill_step(initial_state(gdn0), s).sk.len() ==> #[trigger] d.contains_key(i)
                && d[i] == skill_step(initial_state(gdn0), s).sk[i as int],
    ensures
        ({
            let st = skill_step(initial_state(gdn0), s);
            &&& skill_from(st.grps, names_by_key(st.names), d, r, src, st.gdn) == upper_animations(s)
            &&& level_record_count(st.grps) == s.skill_levels.len()
            &&& st.grps.len() > 0
            &&& forall|i: int| 0 <= i < st.grps.len() ==> (#[trigger] st.grps[i]).id == s.id.0 as u16
            &&& st.sk.len() < u32::MAX
            &&& st.sound_gdn == seq![gdn0]
            &&& st.sound_skills == seq![s]
        }),
{
    let st = skill_step(initial_state(gdn0), s);
    let e = st.gdn;
    let kk = st.sk;
    let pool = general_texts(s);
    let (g0, n0) = lemma_skill_written(s, gdn0);
    assert(dict_of(d, kk));
    lemma_form_numbered(s);
    assert(g0.sub_level == 0 && n0.sub_level == 0 && g0.id as u32 == n0.id);
    lemma_levels_keyed(g0, n0, s.skill_levels, e, kk);
    let st0 = initial_state(gdn0);
    lemma_skill_step_written(st0, s, e, kk, pool);
    lemma_skill_read(s, gdn0, e, kk, pool, d, r, src, names_by_key(skill_lay(s, e, kk).1));
    assert(st.grps =~= skill_lay(s, e, kk).0);
    assert(st.names =~= skill_lay(s, e, kk).1);
}

} // verus!
